//! The persisted textual format of the store: a JSON-shaped object with the
//! three collections and the metadata fields.  Writing is canonical: compact,
//! no whitespace, fields in declaration order, an absent alias written as
//! `null`.  Reading is wider: whitespace may stand before any token (a key
//! and its colon form one token), the alias field may be absent and then
//! reads as none, and whitespace may follow the closing brace.  Reading is
//! still narrower than a full JSON reader, deliberately: the fields must
//! come in declaration order, `sync_todo` must be present, and only the
//! escapes `\"`, `\\`, `\n`, `\r`, `\t` are understood.  Rendering and
//! parsing are both specified character by character, and parsing the
//! rendered form of any store gives that store back.

use vstd::prelude::*;

use crate::store::{Database, DbV, Host, HostV, User, UserV, UserGroup, GroupV, SCHEMA_VERSION};

verus! {

/// Errors of the persistence layer.  Only `FormatError` arises inside the
/// library; the file-handling layer maps I/O failures to the other two.
#[derive(Debug, PartialEq, Eq, Structural, Clone, Copy)]
pub enum DbError {
    IoError,
    FormatError,
    FatalWriteError,
}

// ---------------------------------------------------------------------------
// Tokens of the format.
// ---------------------------------------------------------------------------
pub open spec fn k_hosts() -> Seq<char> {
    "\"hosts\":"@
}

pub open spec fn k_users() -> Seq<char> {
    "\"users\":"@
}

pub open spec fn k_user_groups() -> Seq<char> {
    "\"user_groups\":"@
}

pub open spec fn k_modified_at() -> Seq<char> {
    "\"modified_at\":"@
}

pub open spec fn k_schema_version() -> Seq<char> {
    "\"schema_version\":"@
}

pub open spec fn k_hostname() -> Seq<char> {
    "\"hostname\":"@
}

pub open spec fn k_alias() -> Seq<char> {
    "\"alias\":"@
}

pub open spec fn k_authorized_users() -> Seq<char> {
    "\"authorized_users\":"@
}

pub open spec fn k_authorized_user_groups() -> Seq<char> {
    "\"authorized_user_groups\":"@
}

pub open spec fn k_sync_todo() -> Seq<char> {
    "\"sync_todo\":"@
}

pub open spec fn k_user_id() -> Seq<char> {
    "\"user_id\":"@
}

pub open spec fn k_public_key() -> Seq<char> {
    "\"public_key\":"@
}

pub open spec fn k_group_id() -> Seq<char> {
    "\"group_id\":"@
}

pub open spec fn k_members() -> Seq<char> {
    "\"members\":"@
}

pub open spec fn tok_null() -> Seq<char> {
    seq!['n', 'u', 'l', 'l']
}

pub open spec fn tok_true() -> Seq<char> {
    seq!['t', 'r', 'u', 'e']
}

pub open spec fn tok_false() -> Seq<char> {
    seq!['f', 'a', 'l', 's', 'e']
}

// ---------------------------------------------------------------------------
// Rendering.
// ---------------------------------------------------------------------------
/// How one character is written inside a quoted string: the quote, the
/// backslash and the three common control characters get a backslash escape,
/// every other character stands for itself.
pub open spec fn escape_char(c: char) -> Seq<char> {
    if c == '"' {
        seq!['\\', '"']
    } else if c == '\\' {
        seq!['\\', '\\']
    } else if c == '\n' {
        seq!['\\', 'n']
    } else if c == '\r' {
        seq!['\\', 'r']
    } else if c == '\t' {
        seq!['\\', 't']
    } else {
        seq![c]
    }
}

/// The character an escape code stands for, if it is a known code.
pub open spec fn unescape_char(c: char) -> Option<char> {
    if c == '"' {
        Some('"')
    } else if c == '\\' {
        Some('\\')
    } else if c == 'n' {
        Some('\n')
    } else if c == 'r' {
        Some('\r')
    } else if c == 't' {
        Some('\t')
    } else {
        None
    }
}

/// A whole string with each character escaped.
pub open spec fn escape(t: Seq<char>) -> Seq<char>
    decreases t.len(),
{
    if t.len() == 0 {
        Seq::<char>::empty()
    } else {
        escape_char(t[0]) + escape(t.drop_first())
    }
}

/// A quoted, escaped string.
pub open spec fn render_str(t: Seq<char>) -> Seq<char> {
    seq!['"'] + escape(t) + seq!['"']
}

/// An optional string: `null` when absent.
pub open spec fn render_opt_str(a: Option<Seq<char>>) -> Seq<char> {
    match a {
        Some(t) => render_str(t),
        None => tok_null(),
    }
}

pub open spec fn render_bool(b: bool) -> Seq<char> {
    if b {
        tok_true()
    } else {
        tok_false()
    }
}

/// The elements of an identifier list after the first, each preceded by a
/// comma, closed by the bracket.
pub open spec fn render_ids_rest(ids: Seq<Seq<char>>) -> Seq<char>
    decreases ids.len(),
{
    if ids.len() == 0 {
        seq![']']
    } else {
        seq![','] + render_str(ids[0]) + render_ids_rest(ids.drop_first())
    }
}

/// A bracketed, comma-separated list of quoted identifiers.
pub open spec fn render_ids(ids: Seq<Seq<char>>) -> Seq<char> {
    if ids.len() == 0 {
        seq!['[', ']']
    } else {
        seq!['['] + render_str(ids[0]) + render_ids_rest(ids.drop_first())
    }
}

pub open spec fn render_host(h: HostV) -> Seq<char> {
    seq!['{'] + k_hostname() + render_str(h.hostname) + seq![','] + k_alias() + render_opt_str(
        h.alias,
    ) + seq![','] + k_authorized_users() + render_ids(h.authorized_users) + seq![',']
        + k_authorized_user_groups() + render_ids(h.authorized_user_groups) + seq![',']
        + k_sync_todo() + render_bool(h.sync_todo) + seq!['}']
}

pub open spec fn render_user(u: UserV) -> Seq<char> {
    seq!['{'] + k_user_id() + render_str(u.user_id) + seq![','] + k_public_key() + render_str(
        u.public_key,
    ) + seq!['}']
}

pub open spec fn render_group(g: GroupV) -> Seq<char> {
    seq!['{'] + k_group_id() + render_str(g.group_id) + seq![','] + k_members() + render_ids(
        g.members,
    ) + seq!['}']
}

pub open spec fn render_hosts_rest(hs: Seq<HostV>) -> Seq<char>
    decreases hs.len(),
{
    if hs.len() == 0 {
        seq![']']
    } else {
        seq![','] + render_host(hs[0]) + render_hosts_rest(hs.drop_first())
    }
}

pub open spec fn render_hosts(hs: Seq<HostV>) -> Seq<char> {
    if hs.len() == 0 {
        seq!['[', ']']
    } else {
        seq!['['] + render_host(hs[0]) + render_hosts_rest(hs.drop_first())
    }
}

pub open spec fn render_users_rest(us: Seq<UserV>) -> Seq<char>
    decreases us.len(),
{
    if us.len() == 0 {
        seq![']']
    } else {
        seq![','] + render_user(us[0]) + render_users_rest(us.drop_first())
    }
}

pub open spec fn render_users(us: Seq<UserV>) -> Seq<char> {
    if us.len() == 0 {
        seq!['[', ']']
    } else {
        seq!['['] + render_user(us[0]) + render_users_rest(us.drop_first())
    }
}

pub open spec fn render_groups_rest(gs: Seq<GroupV>) -> Seq<char>
    decreases gs.len(),
{
    if gs.len() == 0 {
        seq![']']
    } else {
        seq![','] + render_group(gs[0]) + render_groups_rest(gs.drop_first())
    }
}

pub open spec fn render_groups(gs: Seq<GroupV>) -> Seq<char> {
    if gs.len() == 0 {
        seq!['[', ']']
    } else {
        seq!['['] + render_group(gs[0]) + render_groups_rest(gs.drop_first())
    }
}

/// The whole persisted document for a store.
pub open spec fn render_db(d: DbV) -> Seq<char> {
    seq!['{'] + k_hosts() + render_hosts(d.hosts) + seq![','] + k_users() + render_users(d.users)
        + seq![','] + k_user_groups() + render_groups(d.user_groups) + seq![','] + k_modified_at()
        + render_str(d.modified_at) + seq![','] + k_schema_version() + render_str(d.schema_version)
        + seq!['}']
}

// ---------------------------------------------------------------------------
// Small executable tokens.
// ---------------------------------------------------------------------------
fn comma() -> (r: &'static str)
    ensures
        r@ == seq![','],
{
    proof {
        reveal_strlit(",");
        assert(","@ =~= seq![',']);
    }
    ","
}

fn lbrace() -> (r: &'static str)
    ensures
        r@ == seq!['{'],
{
    proof {
        reveal_strlit("{");
        assert("{"@ =~= seq!['{']);
    }
    "{"
}

fn rbrace() -> (r: &'static str)
    ensures
        r@ == seq!['}'],
{
    proof {
        reveal_strlit("}");
        assert("}"@ =~= seq!['}']);
    }
    "}"
}

fn lbrack() -> (r: &'static str)
    ensures
        r@ == seq!['['],
{
    proof {
        reveal_strlit("[");
        assert("["@ =~= seq!['[']);
    }
    "["
}

fn rbrack() -> (r: &'static str)
    ensures
        r@ == seq![']'],
{
    proof {
        reveal_strlit("]");
        assert("]"@ =~= seq![']']);
    }
    "]"
}

fn null_lit() -> (r: &'static str)
    ensures
        r@ == tok_null(),
{
    proof {
        reveal_strlit("null");
        assert("null"@ =~= tok_null());
    }
    "null"
}

fn true_lit() -> (r: &'static str)
    ensures
        r@ == tok_true(),
{
    proof {
        reveal_strlit("true");
        assert("true"@ =~= tok_true());
    }
    "true"
}

fn false_lit() -> (r: &'static str)
    ensures
        r@ == tok_false(),
{
    proof {
        reveal_strlit("false");
        assert("false"@ =~= tok_false());
    }
    "false"
}

// ---------------------------------------------------------------------------
// Trusted edges.
// ---------------------------------------------------------------------------
/// Relies on std's `String::push`: appends the given character to the end of
/// the string.
#[verifier::external_body]
fn push_char(out: &mut String, c: char)
    ensures
        final(out)@ == old(out)@.push(c),
{
    out.push(c);
}

/// What chrono's `Display` for a UTC instant always produces: the civil date
/// and time, a space, and the offset name, so a non-empty text ending in
/// ` UTC`.
pub open spec fn utc_stamp_shape(s: Seq<char>) -> bool {
    s.len() > 4 && s.subrange(s.len() - 4, s.len() as int) == " UTC"@
}

/// Relies on chrono's `Utc::now` and the `Display` of `DateTime`, which
/// always writes the civil date and time, a space, and the offset name
/// `UTC`.  The value depends on the clock, so nothing more is stated of it.
/// `Utc::now` itself does not return if the system clock is set before the
/// Unix epoch.
#[verifier::external_body]
fn current_utc_timestamp() -> (r: String)
    ensures
        r@.len() > 0,
        utc_stamp_shape(r@),
{
    format!("{}", chrono::Utc::now())
}

// ---------------------------------------------------------------------------
// Executable rendering.
// ---------------------------------------------------------------------------
/// Appends the escaped form of `t` to `out`.
#[verifier::rlimit(100)]
#[verifier::spinoff_prover]
fn append_escaped(out: &mut String, t: &str)
    ensures
        final(out)@ == old(out)@ + escape(t@),
{
    let n = t.unicode_len();
    proof {
        assert(t@.skip(0) =~= t@);
    }
    let mut i: usize = 0;
    while i < n
        invariant
            n == t@.len(),
            i <= n,
            out@ + escape(t@.skip(i as int)) == old(out)@ + escape(t@),
        decreases n - i,
    {
        let c = t.get_char(i);
        let ghost out0 = out@;
        proof {
            assert(t@.skip(i as int)[0] == c);
            assert(t@.skip(i as int).drop_first() =~= t@.skip(i as int + 1));
            assert(escape(t@.skip(i as int)) == escape_char(c) + escape(t@.skip(i as int + 1)));
        }
        if c == '"' {
            push_char(out, '\\');
            push_char(out, '"');
        } else if c == '\\' {
            push_char(out, '\\');
            push_char(out, '\\');
        } else if c == '\n' {
            push_char(out, '\\');
            push_char(out, 'n');
        } else if c == '\r' {
            push_char(out, '\\');
            push_char(out, 'r');
        } else if c == '\t' {
            push_char(out, '\\');
            push_char(out, 't');
        } else {
            push_char(out, c);
        }
        proof {
            assert(out@ =~= out0 + escape_char(c));
            assert(out@ + escape(t@.skip(i as int + 1)) =~= out0 + escape(t@.skip(i as int)));
        }
        i = i + 1;
    }
    proof {
        assert(t@.skip(n as int) =~= Seq::<char>::empty());
        assert(out@ =~= old(out)@ + escape(t@));
    }
}

/// Appends the quoted, escaped form of `t` to `out`.
#[verifier::rlimit(100)]
#[verifier::spinoff_prover]
fn append_json_str(out: &mut String, t: &str)
    ensures
        final(out)@ == old(out)@ + render_str(t@),
{
    push_char(out, '"');
    append_escaped(out, t);
    push_char(out, '"');
    proof {
        assert(out@ =~= old(out)@ + render_str(t@));
    }
}

/// Appends a rendered identifier list to `out`.
#[verifier::rlimit(100)]
#[verifier::spinoff_prover]
fn append_ids(out: &mut String, ids: &Vec<String>)
    ensures
        final(out)@ == old(out)@ + render_ids(ids.deep_view()),
{
    out.append(lbrack());
    if ids.len() == 0 {
        out.append(rbrack());
        proof {
            assert(ids.deep_view().len() == 0);
            assert(out@ =~= old(out)@ + render_ids(ids.deep_view()));
        }
        return ;
    }
    append_json_str(out, ids[0].as_str());
    let ghost target = old(out)@ + render_ids(ids.deep_view());
    proof {
        assert(ids.deep_view()[0] == ids@[0]@);
        assert(out@ + render_ids_rest(ids.deep_view().skip(1)) =~= target);
    }
    let n = ids.len();
    let mut i: usize = 1;
    while i < n
        invariant
            n == ids@.len(),
            1 <= i <= n,
            ids.deep_view().len() == n,
            out@ + render_ids_rest(ids.deep_view().skip(i as int)) == target,
        decreases n - i,
    {
        out.append(comma());
        append_json_str(out, ids[i].as_str());
        proof {
            let rest = ids.deep_view().skip(i as int);
            assert(rest[0] == ids@[i as int]@);
            assert(rest.drop_first() =~= ids.deep_view().skip(i as int + 1));
            assert(render_ids_rest(rest) == seq![','] + render_str(rest[0]) + render_ids_rest(
                rest.drop_first(),
            ));
            assert(out@ + render_ids_rest(ids.deep_view().skip(i as int + 1)) =~= target);
        }
        i = i + 1;
    }
    out.append(rbrack());
    proof {
        assert(ids.deep_view().skip(n as int) =~= Seq::<Seq<char>>::empty());
        assert(out@ =~= target);
    }
}

/// Appends one rendered host object to `out`.
#[verifier::rlimit(100)]
#[verifier::spinoff_prover]
fn append_host(out: &mut String, h: &Host)
    ensures
        final(out)@ == old(out)@ + render_host(h@),
{
    let ghost base = old(out)@;
    out.append(lbrace());
    let ghost t1 = seq!['{'];
    out.append("\"hostname\":");
    let ghost t2 = t1 + k_hostname();
    proof {
        assert((base + t1) + k_hostname() =~= base + t2);
    }
    append_json_str(out, h.hostname.as_str());
    let ghost t3 = t2 + render_str(h@.hostname);
    proof {
        assert((base + t2) + render_str(h@.hostname) =~= base + t3);
    }
    out.append(comma());
    let ghost t4 = t3 + seq![','];
    proof {
        assert((base + t3) + seq![','] =~= base + t4);
    }
    out.append("\"alias\":");
    let ghost t5 = t4 + k_alias();
    proof {
        assert((base + t4) + k_alias() =~= base + t5);
    }
    match &h.alias {
        Some(a) => {
            append_json_str(out, a.as_str());
            proof {
                assert(h@.alias == Some(a@));
            }
        },
        None => {
            out.append(null_lit());
        },
    }
    let ghost t6 = t5 + render_opt_str(h@.alias);
    proof {
        assert((base + t5) + render_opt_str(h@.alias) =~= base + t6);
    }
    out.append(comma());
    let ghost t7 = t6 + seq![','];
    proof {
        assert((base + t6) + seq![','] =~= base + t7);
    }
    out.append("\"authorized_users\":");
    let ghost t8 = t7 + k_authorized_users();
    proof {
        assert((base + t7) + k_authorized_users() =~= base + t8);
    }
    append_ids(out, &h.authorized_users);
    let ghost t9 = t8 + render_ids(h@.authorized_users);
    proof {
        assert((base + t8) + render_ids(h@.authorized_users) =~= base + t9);
    }
    out.append(comma());
    let ghost t10 = t9 + seq![','];
    proof {
        assert((base + t9) + seq![','] =~= base + t10);
    }
    out.append("\"authorized_user_groups\":");
    let ghost t11 = t10 + k_authorized_user_groups();
    proof {
        assert((base + t10) + k_authorized_user_groups() =~= base + t11);
    }
    append_ids(out, &h.authorized_user_groups);
    let ghost t12 = t11 + render_ids(h@.authorized_user_groups);
    proof {
        assert((base + t11) + render_ids(h@.authorized_user_groups) =~= base + t12);
    }
    out.append(comma());
    let ghost t13 = t12 + seq![','];
    proof {
        assert((base + t12) + seq![','] =~= base + t13);
    }
    out.append("\"sync_todo\":");
    let ghost t14 = t13 + k_sync_todo();
    proof {
        assert((base + t13) + k_sync_todo() =~= base + t14);
    }
    if h.sync_todo {
        out.append(true_lit());
    } else {
        out.append(false_lit());
    }
    let ghost t15 = t14 + render_bool(h@.sync_todo);
    proof {
        assert((base + t14) + render_bool(h@.sync_todo) =~= base + t15);
    }
    out.append(rbrace());
    let ghost t16 = t15 + seq!['}'];
    proof {
        assert((base + t15) + seq!['}'] =~= base + t16);
        assert(t16 == render_host(h@));
    }
}

/// Appends one rendered user object to `out`.
#[verifier::rlimit(100)]
#[verifier::spinoff_prover]
fn append_user(out: &mut String, u: &User)
    ensures
        final(out)@ == old(out)@ + render_user(u@),
{
    out.append(lbrace());
    out.append("\"user_id\":");
    append_json_str(out, u.user_id.as_str());
    out.append(comma());
    out.append("\"public_key\":");
    append_json_str(out, u.public_key.as_str());
    out.append(rbrace());
    proof {
        assert(out@ =~= old(out)@ + render_user(u@));
    }
}

/// Appends one rendered group object to `out`.
#[verifier::rlimit(100)]
#[verifier::spinoff_prover]
fn append_group(out: &mut String, g: &UserGroup)
    ensures
        final(out)@ == old(out)@ + render_group(g@),
{
    out.append(lbrace());
    out.append("\"group_id\":");
    append_json_str(out, g.group_id.as_str());
    out.append(comma());
    out.append("\"members\":");
    append_ids(out, &g.members);
    out.append(rbrace());
    proof {
        assert(out@ =~= old(out)@ + render_group(g@));
    }
}

/// Appends the rendered host list to `out`.
#[verifier::rlimit(100)]
#[verifier::spinoff_prover]
fn append_hosts(out: &mut String, hs: &Vec<Host>)
    ensures
        final(out)@ == old(out)@ + render_hosts(hs.deep_view()),
{
    out.append(lbrack());
    if hs.len() == 0 {
        out.append(rbrack());
        proof {
            assert(hs.deep_view().len() == 0);
            assert(out@ =~= old(out)@ + render_hosts(hs.deep_view()));
        }
        return ;
    }
    append_host(out, &hs[0]);
    let ghost target = old(out)@ + render_hosts(hs.deep_view());
    proof {
        assert(hs.deep_view()[0] == hs@[0]@);
        assert(out@ + render_hosts_rest(hs.deep_view().skip(1)) =~= target);
    }
    let n = hs.len();
    let mut i: usize = 1;
    while i < n
        invariant
            n == hs@.len(),
            1 <= i <= n,
            hs.deep_view().len() == n,
            out@ + render_hosts_rest(hs.deep_view().skip(i as int)) == target,
        decreases n - i,
    {
        out.append(comma());
        append_host(out, &hs[i]);
        proof {
            let rest = hs.deep_view().skip(i as int);
            assert(rest[0] == hs@[i as int]@);
            assert(rest.drop_first() =~= hs.deep_view().skip(i as int + 1));
            assert(render_hosts_rest(rest) == seq![','] + render_host(rest[0]) + render_hosts_rest(
                rest.drop_first(),
            ));
            assert(out@ + render_hosts_rest(hs.deep_view().skip(i as int + 1)) =~= target);
        }
        i = i + 1;
    }
    out.append(rbrack());
    proof {
        assert(hs.deep_view().skip(n as int) =~= Seq::<HostV>::empty());
        assert(out@ =~= target);
    }
}

/// Appends the rendered user list to `out`.
#[verifier::rlimit(100)]
#[verifier::spinoff_prover]
fn append_users(out: &mut String, us: &Vec<User>)
    ensures
        final(out)@ == old(out)@ + render_users(us.deep_view()),
{
    out.append(lbrack());
    if us.len() == 0 {
        out.append(rbrack());
        proof {
            assert(us.deep_view().len() == 0);
            assert(out@ =~= old(out)@ + render_users(us.deep_view()));
        }
        return ;
    }
    append_user(out, &us[0]);
    let ghost target = old(out)@ + render_users(us.deep_view());
    proof {
        assert(us.deep_view()[0] == us@[0]@);
        assert(out@ + render_users_rest(us.deep_view().skip(1)) =~= target);
    }
    let n = us.len();
    let mut i: usize = 1;
    while i < n
        invariant
            n == us@.len(),
            1 <= i <= n,
            us.deep_view().len() == n,
            out@ + render_users_rest(us.deep_view().skip(i as int)) == target,
        decreases n - i,
    {
        out.append(comma());
        append_user(out, &us[i]);
        proof {
            let rest = us.deep_view().skip(i as int);
            assert(rest[0] == us@[i as int]@);
            assert(rest.drop_first() =~= us.deep_view().skip(i as int + 1));
            assert(render_users_rest(rest) == seq![','] + render_user(rest[0]) + render_users_rest(
                rest.drop_first(),
            ));
            assert(out@ + render_users_rest(us.deep_view().skip(i as int + 1)) =~= target);
        }
        i = i + 1;
    }
    out.append(rbrack());
    proof {
        assert(us.deep_view().skip(n as int) =~= Seq::<UserV>::empty());
        assert(out@ =~= target);
    }
}

/// Appends the rendered group list to `out`.
#[verifier::rlimit(100)]
#[verifier::spinoff_prover]
fn append_groups(out: &mut String, gs: &Vec<UserGroup>)
    ensures
        final(out)@ == old(out)@ + render_groups(gs.deep_view()),
{
    out.append(lbrack());
    if gs.len() == 0 {
        out.append(rbrack());
        proof {
            assert(gs.deep_view().len() == 0);
            assert(out@ =~= old(out)@ + render_groups(gs.deep_view()));
        }
        return ;
    }
    append_group(out, &gs[0]);
    let ghost target = old(out)@ + render_groups(gs.deep_view());
    proof {
        assert(gs.deep_view()[0] == gs@[0]@);
        assert(out@ + render_groups_rest(gs.deep_view().skip(1)) =~= target);
    }
    let n = gs.len();
    let mut i: usize = 1;
    while i < n
        invariant
            n == gs@.len(),
            1 <= i <= n,
            gs.deep_view().len() == n,
            out@ + render_groups_rest(gs.deep_view().skip(i as int)) == target,
        decreases n - i,
    {
        out.append(comma());
        append_group(out, &gs[i]);
        proof {
            let rest = gs.deep_view().skip(i as int);
            assert(rest[0] == gs@[i as int]@);
            assert(rest.drop_first() =~= gs.deep_view().skip(i as int + 1));
            assert(render_groups_rest(rest) == seq![','] + render_group(rest[0])
                + render_groups_rest(rest.drop_first()));
            assert(out@ + render_groups_rest(gs.deep_view().skip(i as int + 1)) =~= target);
        }
        i = i + 1;
    }
    out.append(rbrack());
    proof {
        assert(gs.deep_view().skip(n as int) =~= Seq::<GroupV>::empty());
        assert(out@ =~= target);
    }
}

/// Renders the whole store into its persisted text.
#[verifier::rlimit(100)]
#[verifier::spinoff_prover]
pub fn db_to_json(db: &Database) -> (out: String)
    ensures
        out@ == render_db(db@),
{
    let mut out = String::new();
    let ghost base = out@;
    out.append(lbrace());
    let ghost t1 = seq!['{'];
    out.append("\"hosts\":");
    let ghost t2 = t1 + k_hosts();
    proof {
        assert((base + t1) + k_hosts() =~= base + t2);
    }
    append_hosts(&mut out, &db.hosts);
    let ghost t3 = t2 + render_hosts(db@.hosts);
    proof {
        assert((base + t2) + render_hosts(db@.hosts) =~= base + t3);
    }
    out.append(comma());
    let ghost t4 = t3 + seq![','];
    proof {
        assert((base + t3) + seq![','] =~= base + t4);
    }
    out.append("\"users\":");
    let ghost t5 = t4 + k_users();
    proof {
        assert((base + t4) + k_users() =~= base + t5);
    }
    append_users(&mut out, &db.users);
    let ghost t6 = t5 + render_users(db@.users);
    proof {
        assert((base + t5) + render_users(db@.users) =~= base + t6);
    }
    out.append(comma());
    let ghost t7 = t6 + seq![','];
    proof {
        assert((base + t6) + seq![','] =~= base + t7);
    }
    out.append("\"user_groups\":");
    let ghost t8 = t7 + k_user_groups();
    proof {
        assert((base + t7) + k_user_groups() =~= base + t8);
    }
    append_groups(&mut out, &db.user_groups);
    let ghost t9 = t8 + render_groups(db@.user_groups);
    proof {
        assert((base + t8) + render_groups(db@.user_groups) =~= base + t9);
    }
    out.append(comma());
    let ghost t10 = t9 + seq![','];
    proof {
        assert((base + t9) + seq![','] =~= base + t10);
    }
    out.append("\"modified_at\":");
    let ghost t11 = t10 + k_modified_at();
    proof {
        assert((base + t10) + k_modified_at() =~= base + t11);
    }
    append_json_str(&mut out, db.modified_at.as_str());
    let ghost t12 = t11 + render_str(db@.modified_at);
    proof {
        assert((base + t11) + render_str(db@.modified_at) =~= base + t12);
    }
    out.append(comma());
    let ghost t13 = t12 + seq![','];
    proof {
        assert((base + t12) + seq![','] =~= base + t13);
    }
    out.append("\"schema_version\":");
    let ghost t14 = t13 + k_schema_version();
    proof {
        assert((base + t13) + k_schema_version() =~= base + t14);
    }
    append_json_str(&mut out, db.schema_version.as_str());
    let ghost t15 = t14 + render_str(db@.schema_version);
    proof {
        assert((base + t14) + render_str(db@.schema_version) =~= base + t15);
    }
    out.append(rbrace());
    let ghost t16 = t15 + seq!['}'];
    proof {
        assert((base + t15) + seq!['}'] =~= base + t16);
        assert(t16 == render_db(db@));
        assert(base + t16 =~= render_db(db@));
    }
    out
}

// ---------------------------------------------------------------------------
// Parsing, specified.
//
// Each function takes the text and a position and yields the parsed value
// with the position just past it, or nothing when the text does not have the
// expected shape there.  Whitespace may stand before any token; a key and
// its colon form one token.
// ---------------------------------------------------------------------------
/// A fixed token at position `i`, with no whitespace allowance.
pub open spec fn sp_expect(s: Seq<char>, i: int, tok: Seq<char>) -> Option<int> {
    if 0 <= i && i + tok.len() <= s.len() && s.subrange(i, i + tok.len()) == tok {
        Some(i + tok.len())
    } else {
        None
    }
}

/// The four whitespace characters the format tolerates between tokens.
pub open spec fn is_ws(c: char) -> bool {
    c == ' ' || c == '\n' || c == '\t' || c == '\r'
}

/// First position at or after `i` holding no whitespace.
pub open spec fn skip_ws(s: Seq<char>, i: int) -> int
    decreases s.len() - i,
{
    if 0 <= i < s.len() && is_ws(s[i]) {
        skip_ws(s, i + 1)
    } else {
        i
    }
}

/// A fixed token, allowing whitespace before it.
pub open spec fn tok(s: Seq<char>, i: int, t: Seq<char>) -> Option<int> {
    sp_expect(s, skip_ws(s, i), t)
}

/// The characters of a quoted string after the opening quote, up to and past
/// the closing quote, with escapes decoded.
pub open spec fn parse_str_body(s: Seq<char>, i: int) -> Option<(Seq<char>, int)>
    decreases s.len() - i,
{
    if i < 0 || i >= s.len() {
        None
    } else if s[i] == '"' {
        Some((Seq::<char>::empty(), i + 1))
    } else if s[i] == '\\' {
        if i + 1 < s.len() {
            match unescape_char(s[i + 1]) {
                Some(u) => match parse_str_body(s, i + 2) {
                    Some(p) => Some((seq![u] + p.0, p.1)),
                    None => None,
                },
                None => None,
            }
        } else {
            None
        }
    } else {
        match parse_str_body(s, i + 1) {
            Some(p) => Some((seq![s[i]] + p.0, p.1)),
            None => None,
        }
    }
}

/// A quoted string standing exactly at position `i`.
pub open spec fn parse_string(s: Seq<char>, i: int) -> Option<(Seq<char>, int)> {
    if 0 <= i < s.len() && s[i] == '"' {
        parse_str_body(s, i + 1)
    } else {
        None
    }
}

/// A quoted string, allowing whitespace before it.
pub open spec fn parse_qstr(s: Seq<char>, i: int) -> Option<(Seq<char>, int)> {
    parse_string(s, skip_ws(s, i))
}

/// A quoted string or the token `null`.
pub open spec fn parse_opt_str(s: Seq<char>, i: int) -> Option<(Option<Seq<char>>, int)> {
    match tok(s, i, tok_null()) {
        Some(j) => Some((None, j)),
        None => match parse_qstr(s, i) {
            Some(p) => Some((Some(p.0), p.1)),
            None => None,
        },
    }
}

/// The token `true` or the token `false`.
pub open spec fn parse_bool(s: Seq<char>, i: int) -> Option<(bool, int)> {
    match tok(s, i, tok_true()) {
        Some(j) => Some((true, j)),
        None => match tok(s, i, tok_false()) {
            Some(j) => Some((false, j)),
            None => None,
        },
    }
}

/// The identifiers after the first element of a list, each behind a comma,
/// up to and past the closing bracket.
pub open spec fn parse_ids_rest(s: Seq<char>, i: int) -> Option<(Seq<Seq<char>>, int)>
    decreases s.len() - i,
{
    let j = skip_ws(s, i);
    if 0 <= j < s.len() && s[j] == ']' {
        Some((Seq::<Seq<char>>::empty(), j + 1))
    } else if 0 <= j < s.len() && s[j] == ',' {
        match parse_qstr(s, j + 1) {
            Some(p) => if i < p.1 <= s.len() {
                match parse_ids_rest(s, p.1) {
                    Some(q) => Some((seq![p.0] + q.0, q.1)),
                    None => None,
                }
            } else {
                None
            },
            None => None,
        }
    } else {
        None
    }
}

/// A bracketed, comma-separated list of quoted identifiers.
pub open spec fn parse_ids(s: Seq<char>, i: int) -> Option<(Seq<Seq<char>>, int)> {
    match tok(s, i, seq!['[']) {
        Some(j0) => {
            let j = skip_ws(s, j0);
            if 0 <= j < s.len() && s[j] == ']' {
                Some((Seq::<Seq<char>>::empty(), j + 1))
            } else {
                match parse_string(s, j) {
                    Some(p) => if j0 < p.1 <= s.len() {
                        match parse_ids_rest(s, p.1) {
                            Some(q) => Some((seq![p.0] + q.0, q.1)),
                            None => None,
                        }
                    } else {
                        None
                    },
                    None => None,
                }
            }
        },
        None => None,
    }
}

/// The fields of a host object after the optional alias, up to and past the
/// closing brace.
pub open spec fn parse_host_tail(
    s: Seq<char>,
    i: int,
    hostname: Seq<char>,
    alias: Option<Seq<char>>,
) -> Option<(HostV, int)> {
    match tok(s, i, k_authorized_users()) {
        None => None,
        Some(i1) => match parse_ids(s, i1) {
            None => None,
            Some(au) => match tok(s, au.1, seq![',']) {
                None => None,
                Some(i2) => match tok(s, i2, k_authorized_user_groups()) {
                    None => None,
                    Some(i3) => match parse_ids(s, i3) {
                        None => None,
                        Some(ag) => match tok(s, ag.1, seq![',']) {
                            None => None,
                            Some(i4) => match tok(s, i4, k_sync_todo()) {
                                None => None,
                                Some(i5) => match parse_bool(s, i5) {
                                    None => None,
                                    Some(st) => match tok(s, st.1, seq!['}']) {
                                        None => None,
                                        Some(i6) => Some(
                                            (
                                                HostV {
                                                    hostname,
                                                    alias,
                                                    authorized_users: au.0,
                                                    authorized_user_groups: ag.0,
                                                    sync_todo: st.0,
                                                },
                                                i6,
                                            ),
                                        ),
                                    },
                                },
                            },
                        },
                    },
                },
            },
        },
    }
}

/// One host object.  The alias field may be absent, in which case the alias
/// is none.
pub open spec fn parse_host(s: Seq<char>, i: int) -> Option<(HostV, int)> {
    match tok(s, i, seq!['{']) {
        None => None,
        Some(i1) => match tok(s, i1, k_hostname()) {
            None => None,
            Some(i2) => match parse_qstr(s, i2) {
                None => None,
                Some(hn) => match tok(s, hn.1, seq![',']) {
                    None => None,
                    Some(i3) => match tok(s, i3, k_alias()) {
                        Some(i4) => match parse_opt_str(s, i4) {
                            None => None,
                            Some(al) => match tok(s, al.1, seq![',']) {
                                None => None,
                                Some(i5) => parse_host_tail(s, i5, hn.0, al.0),
                            },
                        },
                        None => parse_host_tail(s, i3, hn.0, None),
                    },
                },
            },
        },
    }
}

/// One user object.
pub open spec fn parse_user(s: Seq<char>, i: int) -> Option<(UserV, int)> {
    match tok(s, i, seq!['{']) {
        None => None,
        Some(i1) => match tok(s, i1, k_user_id()) {
            None => None,
            Some(i2) => match parse_qstr(s, i2) {
                None => None,
                Some(uid) => match tok(s, uid.1, seq![',']) {
                    None => None,
                    Some(i3) => match tok(s, i3, k_public_key()) {
                        None => None,
                        Some(i4) => match parse_qstr(s, i4) {
                            None => None,
                            Some(pk) => match tok(s, pk.1, seq!['}']) {
                                None => None,
                                Some(i5) => Some(
                                    (UserV { user_id: uid.0, public_key: pk.0 }, i5),
                                ),
                            },
                        },
                    },
                },
            },
        },
    }
}

/// One group object.
pub open spec fn parse_group(s: Seq<char>, i: int) -> Option<(GroupV, int)> {
    match tok(s, i, seq!['{']) {
        None => None,
        Some(i1) => match tok(s, i1, k_group_id()) {
            None => None,
            Some(i2) => match parse_qstr(s, i2) {
                None => None,
                Some(gid) => match tok(s, gid.1, seq![',']) {
                    None => None,
                    Some(i3) => match tok(s, i3, k_members()) {
                        None => None,
                        Some(i4) => match parse_ids(s, i4) {
                            None => None,
                            Some(ms) => match tok(s, ms.1, seq!['}']) {
                                None => None,
                                Some(i5) => Some((GroupV { group_id: gid.0, members: ms.0 }, i5)),
                            },
                        },
                    },
                },
            },
        },
    }
}

/// The host objects after the first, up to and past the closing bracket.
pub open spec fn parse_hosts_rest(s: Seq<char>, i: int) -> Option<(Seq<HostV>, int)>
    decreases s.len() - i,
{
    let j = skip_ws(s, i);
    if 0 <= j < s.len() && s[j] == ']' {
        Some((Seq::<HostV>::empty(), j + 1))
    } else if 0 <= j < s.len() && s[j] == ',' {
        match parse_host(s, j + 1) {
            Some(p) => if i < p.1 <= s.len() {
                match parse_hosts_rest(s, p.1) {
                    Some(q) => Some((seq![p.0] + q.0, q.1)),
                    None => None,
                }
            } else {
                None
            },
            None => None,
        }
    } else {
        None
    }
}

/// A bracketed, comma-separated list of host objects.
pub open spec fn parse_hosts(s: Seq<char>, i: int) -> Option<(Seq<HostV>, int)> {
    match tok(s, i, seq!['[']) {
        Some(j0) => {
            let j = skip_ws(s, j0);
            if 0 <= j < s.len() && s[j] == ']' {
                Some((Seq::<HostV>::empty(), j + 1))
            } else {
                match parse_host(s, j) {
                    Some(p) => if j0 < p.1 <= s.len() {
                        match parse_hosts_rest(s, p.1) {
                            Some(q) => Some((seq![p.0] + q.0, q.1)),
                            None => None,
                        }
                    } else {
                        None
                    },
                    None => None,
                }
            }
        },
        None => None,
    }
}

/// The user objects after the first, up to and past the closing bracket.
pub open spec fn parse_users_rest(s: Seq<char>, i: int) -> Option<(Seq<UserV>, int)>
    decreases s.len() - i,
{
    let j = skip_ws(s, i);
    if 0 <= j < s.len() && s[j] == ']' {
        Some((Seq::<UserV>::empty(), j + 1))
    } else if 0 <= j < s.len() && s[j] == ',' {
        match parse_user(s, j + 1) {
            Some(p) => if i < p.1 <= s.len() {
                match parse_users_rest(s, p.1) {
                    Some(q) => Some((seq![p.0] + q.0, q.1)),
                    None => None,
                }
            } else {
                None
            },
            None => None,
        }
    } else {
        None
    }
}

/// A bracketed, comma-separated list of user objects.
pub open spec fn parse_users(s: Seq<char>, i: int) -> Option<(Seq<UserV>, int)> {
    match tok(s, i, seq!['[']) {
        Some(j0) => {
            let j = skip_ws(s, j0);
            if 0 <= j < s.len() && s[j] == ']' {
                Some((Seq::<UserV>::empty(), j + 1))
            } else {
                match parse_user(s, j) {
                    Some(p) => if j0 < p.1 <= s.len() {
                        match parse_users_rest(s, p.1) {
                            Some(q) => Some((seq![p.0] + q.0, q.1)),
                            None => None,
                        }
                    } else {
                        None
                    },
                    None => None,
                }
            }
        },
        None => None,
    }
}

/// The group objects after the first, up to and past the closing bracket.
pub open spec fn parse_groups_rest(s: Seq<char>, i: int) -> Option<(Seq<GroupV>, int)>
    decreases s.len() - i,
{
    let j = skip_ws(s, i);
    if 0 <= j < s.len() && s[j] == ']' {
        Some((Seq::<GroupV>::empty(), j + 1))
    } else if 0 <= j < s.len() && s[j] == ',' {
        match parse_group(s, j + 1) {
            Some(p) => if i < p.1 <= s.len() {
                match parse_groups_rest(s, p.1) {
                    Some(q) => Some((seq![p.0] + q.0, q.1)),
                    None => None,
                }
            } else {
                None
            },
            None => None,
        }
    } else {
        None
    }
}

/// A bracketed, comma-separated list of group objects.
pub open spec fn parse_groups(s: Seq<char>, i: int) -> Option<(Seq<GroupV>, int)> {
    match tok(s, i, seq!['[']) {
        Some(j0) => {
            let j = skip_ws(s, j0);
            if 0 <= j < s.len() && s[j] == ']' {
                Some((Seq::<GroupV>::empty(), j + 1))
            } else {
                match parse_group(s, j) {
                    Some(p) => if j0 < p.1 <= s.len() {
                        match parse_groups_rest(s, p.1) {
                            Some(q) => Some((seq![p.0] + q.0, q.1)),
                            None => None,
                        }
                    } else {
                        None
                    },
                    None => None,
                }
            }
        },
        None => None,
    }
}

/// The two metadata fields and the closing brace of the document.
pub open spec fn parse_db_meta(
    s: Seq<char>,
    i: int,
    hosts: Seq<HostV>,
    users: Seq<UserV>,
    user_groups: Seq<GroupV>,
) -> Option<(DbV, int)> {
    match tok(s, i, k_modified_at()) {
        None => None,
        Some(i1) => match parse_qstr(s, i1) {
            None => None,
            Some(ma) => match tok(s, ma.1, seq![',']) {
                None => None,
                Some(i2) => match tok(s, i2, k_schema_version()) {
                    None => None,
                    Some(i3) => match parse_qstr(s, i3) {
                        None => None,
                        Some(sv) => match tok(s, sv.1, seq!['}']) {
                            None => None,
                            Some(i4) => Some(
                                (
                                    DbV {
                                        hosts,
                                        users,
                                        user_groups,
                                        modified_at: ma.0,
                                        schema_version: sv.0,
                                    },
                                    i4,
                                ),
                            ),
                        },
                    },
                },
            },
        },
    }
}

/// The top-level object with its five fields, in order.
pub open spec fn parse_db_obj(s: Seq<char>, i: int) -> Option<(DbV, int)> {
    match tok(s, i, seq!['{']) {
        None => None,
        Some(i1) => match tok(s, i1, k_hosts()) {
            None => None,
            Some(i2) => match parse_hosts(s, i2) {
                None => None,
                Some(hs) => match tok(s, hs.1, seq![',']) {
                    None => None,
                    Some(i3) => match tok(s, i3, k_users()) {
                        None => None,
                        Some(i4) => match parse_users(s, i4) {
                            None => None,
                            Some(us) => match tok(s, us.1, seq![',']) {
                                None => None,
                                Some(i5) => match tok(s, i5, k_user_groups()) {
                                    None => None,
                                    Some(i6) => match parse_groups(s, i6) {
                                        None => None,
                                        Some(gs) => match tok(s, gs.1, seq![',']) {
                                            None => None,
                                            Some(i7) => parse_db_meta(s, i7, hs.0, us.0, gs.0),
                                        },
                                    },
                                },
                            },
                        },
                    },
                },
            },
        },
    }
}

/// A whole persisted document: the top-level object, with nothing but
/// whitespace after it.
pub open spec fn parse_db(s: Seq<char>) -> Option<DbV> {
    match parse_db_obj(s, 0) {
        Some(p) => if skip_ws(s, p.1) == s.len() {
            Some(p.0)
        } else {
            None
        },
        None => None,
    }
}
// ---------------------------------------------------------------------------
// Parsing, executable.  Each function computes exactly what its spec
// counterpart describes.
// ---------------------------------------------------------------------------
/// Matches the fixed token `tok` at position `i`, with no whitespace
/// allowance.
#[verifier::rlimit(100)]
#[verifier::spinoff_prover]
fn expect(s: &str, i: usize, tok: &str) -> (r: Option<usize>)
    ensures
        match r {
            Some(j) => sp_expect(s@, i as int, tok@) == Some(j as int) && j as int == i
                + tok@.len(),
            None => sp_expect(s@, i as int, tok@) is None,
        },
{
    let n = s.unicode_len();
    let m = tok.unicode_len();
    if i > n || m > n - i {
        return None;
    }
    let mut k: usize = 0;
    while k < m
        invariant
            n == s@.len(),
            m == tok@.len(),
            i + m <= n,
            k <= m,
            forall|j: int| 0 <= j < k ==> s@[i + j] == tok@[j],
        decreases m - k,
    {
        if s.get_char(i + k) != tok.get_char(k) {
            proof {
                assert(s@.subrange(i as int, i as int + m)[k as int] == s@[i + k]);
                assert(s@.subrange(i as int, i as int + m) != tok@);
            }
            return None;
        }
        k = k + 1;
    }
    proof {
        assert(s@.subrange(i as int, i as int + m) =~= tok@);
    }
    Some(i + m)
}

/// Advances past any whitespace.
fn skip_ws_exec(s: &str, i: usize) -> (j: usize)
    ensures
        j as int == skip_ws(s@, i as int),
        i <= j,
        i <= s@.len() ==> j <= s@.len(),
{
    let n = s.unicode_len();
    if i >= n {
        return i;
    }
    let mut p: usize = i;
    while p < n
        invariant
            i <= p <= n,
            n == s@.len(),
            skip_ws(s@, i as int) == skip_ws(s@, p as int),
        decreases n - p,
    {
        let c = s.get_char(p);
        if !(c == ' ' || c == '\n' || c == '\t' || c == '\r') {
            return p;
        }
        proof {
            assert(skip_ws(s@, p as int) == skip_ws(s@, p as int + 1));
        }
        p = p + 1;
    }
    p
}

/// Matches the fixed token `t` at position `i`, allowing whitespace before
/// it.
fn tok_exec(s: &str, i: usize, t: &str) -> (r: Option<usize>)
    ensures
        match r {
            Some(j) => tok(s@, i as int, t@) == Some(j as int) && i + t@.len() <= j as int && j
                <= s@.len(),
            None => tok(s@, i as int, t@) is None,
        },
{
    let j = skip_ws_exec(s, i);
    match expect(s, j, t) {
        Some(k) => Some(k),
        None => None,
    }
}

/// Reads a quoted string standing exactly at position `i`.
#[verifier::rlimit(100)]
#[verifier::spinoff_prover]
fn read_string(s: &str, i: usize) -> (r: Option<(String, usize)>)
    ensures
        match r {
            Some(p) => parse_string(s@, i as int) == Some((p.0@, p.1 as int)) && i < p.1 <= s@.len(),
            None => parse_string(s@, i as int) is None,
        },
{
    let n = s.unicode_len();
    if i >= n || s.get_char(i) != '"' {
        return None;
    }
    let mut acc = String::new();
    let mut p: usize = i + 1;
    while p < n
        invariant
            n == s@.len(),
            i + 1 <= p <= n,
            i < n,
            s@[i as int] == '"',
            match parse_str_body(s@, p as int) {
                Some(q) => parse_str_body(s@, i + 1) == Some((acc@ + q.0, q.1)),
                None => parse_str_body(s@, i + 1) is None,
            },
        decreases n - p,
    {
        let c = s.get_char(p);
        if c == '"' {
            proof {
                assert(parse_str_body(s@, p as int) == Some((Seq::<char>::empty(), p + 1)));
                assert(acc@ + Seq::<char>::empty() =~= acc@);
            }
            return Some((acc, p + 1));
        } else if c == '\\' {
            if p + 1 >= n {
                return None;
            }
            let e = s.get_char(p + 1);
            let u = if e == '"' {
                Some('"')
            } else if e == '\\' {
                Some('\\')
            } else if e == 'n' {
                Some('\n')
            } else if e == 'r' {
                Some('\r')
            } else if e == 't' {
                Some('\t')
            } else {
                None
            };
            proof {
                assert(u == unescape_char(e));
            }
            match u {
                Some(uc) => {
                    let ghost acc0 = acc@;
                    let ghost p0 = p as int;
                    push_char(&mut acc, uc);
                    proof {
                        if parse_str_body(s@, p0 + 2) is Some {
                            let q = parse_str_body(s@, p0 + 2)->Some_0;
                            assert(parse_str_body(s@, p0) == Some((seq![uc] + q.0, q.1)));
                            assert(acc0 + (seq![uc] + q.0) =~= acc@ + q.0);
                        }
                    }
                    p = p + 2;
                },
                None => {
                    return None;
                },
            }
        } else {
            let ghost acc0 = acc@;
            let ghost p0 = p as int;
            push_char(&mut acc, c);
            proof {
                if parse_str_body(s@, p0 + 1) is Some {
                    let q = parse_str_body(s@, p0 + 1)->Some_0;
                    assert(parse_str_body(s@, p0) == Some((seq![c] + q.0, q.1)));
                    assert(acc0 + (seq![c] + q.0) =~= acc@ + q.0);
                }
            }
            p = p + 1;
        }
    }
    None
}

/// Reads a quoted string, allowing whitespace before it.
fn read_qstr(s: &str, i: usize) -> (r: Option<(String, usize)>)
    ensures
        match r {
            Some(p) => parse_qstr(s@, i as int) == Some((p.0@, p.1 as int)) && i < p.1 <= s@.len(),
            None => parse_qstr(s@, i as int) is None,
        },
{
    let j = skip_ws_exec(s, i);
    read_string(s, j)
}

/// Reads a quoted string or the token `null` at position `i`.
fn read_opt_str(s: &str, i: usize) -> (r: Option<(Option<String>, usize)>)
    ensures
        match r {
            Some(p) => parse_opt_str(s@, i as int) == Some((p.0.deep_view(), p.1 as int)) && i
                < p.1 <= s@.len(),
            None => parse_opt_str(s@, i as int) is None,
        },
{
    match tok_exec(s, i, null_lit()) {
        Some(j) => {
            let r: Option<String> = None;
            proof {
                assert(r.deep_view() == parse_opt_str(s@, i as int)->Some_0.0);
            }
            Some((r, j))
        },
        None => match read_qstr(s, i) {
            Some((t, j)) => {
                let r: Option<String> = Some(t);
                proof {
                    assert(r.deep_view() == parse_opt_str(s@, i as int)->Some_0.0);
                }
                Some((r, j))
            },
            None => None,
        },
    }
}

/// Reads the token `true` or the token `false` at position `i`.
fn read_bool(s: &str, i: usize) -> (r: Option<(bool, usize)>)
    ensures
        match r {
            Some(p) => parse_bool(s@, i as int) == Some((p.0, p.1 as int)) && i < p.1 <= s@.len(),
            None => parse_bool(s@, i as int) is None,
        },
{
    match tok_exec(s, i, true_lit()) {
        Some(j) => Some((true, j)),
        None => match tok_exec(s, i, false_lit()) {
            Some(j) => Some((false, j)),
            None => None,
        },
    }
}

/// Reads a bracketed list of quoted identifiers at position `i`.
#[verifier::rlimit(100)]
#[verifier::spinoff_prover]
fn read_ids(s: &str, i: usize) -> (r: Option<(Vec<String>, usize)>)
    ensures
        match r {
            Some(p) => parse_ids(s@, i as int) == Some((p.0.deep_view(), p.1 as int)) && i < p.1
                <= s@.len(),
            None => parse_ids(s@, i as int) is None,
        },
{
    let n = s.unicode_len();
    let j0 = match tok_exec(s, i, lbrack()) {
        Some(j) => j,
        None => {
            return None;
        },
    };
    let j = skip_ws_exec(s, j0);
    if j < n && s.get_char(j) == ']' {
        let v: Vec<String> = Vec::new();
        proof {
            assert(v.deep_view() =~= Seq::<Seq<char>>::empty());
        }
        return Some((v, j + 1));
    }
    let (t0, k0) = match read_string(s, j) {
        Some(p) => p,
        None => {
            return None;
        },
    };
    let mut acc: Vec<String> = Vec::new();
    acc.push(t0);
    let mut p: usize = k0;
    proof {
        assert(acc.deep_view() =~= seq![acc@[0]@]);
    }
    while p < n
        invariant
            n == s@.len(),
            i < p <= n,
            match parse_ids_rest(s@, p as int) {
                Some(q) => parse_ids(s@, i as int) == Some((acc.deep_view() + q.0, q.1)),
                None => parse_ids(s@, i as int) is None,
            },
        decreases n - p,
    {
        let jj = skip_ws_exec(s, p);
        if jj >= n {
            return None;
        }
        let c = s.get_char(jj);
        if c == ']' {
            proof {
                assert(acc.deep_view() + Seq::<Seq<char>>::empty() =~= acc.deep_view());
            }
            return Some((acc, jj + 1));
        } else if c == ',' {
            let (t, k) = match read_qstr(s, jj + 1) {
                Some(q) => q,
                None => {
                    return None;
                },
            };
            let ghost acc0 = acc.deep_view();
            let ghost p0 = p as int;
            acc.push(t);
            proof {
                assert(acc.deep_view() =~= acc0.push(t@));
                if parse_ids_rest(s@, k as int) is Some {
                    let q = parse_ids_rest(s@, k as int)->Some_0;
                    assert(parse_ids_rest(s@, p0) == Some((seq![t@] + q.0, q.1)));
                    assert(acc0 + (seq![t@] + q.0) =~= acc.deep_view() + q.0);
                }
            }
            p = k;
        } else {
            return None;
        }
    }
    None
}

/// Reads a host object's fields after the optional alias.
#[verifier::rlimit(100)]
#[verifier::spinoff_prover]
fn read_host_tail(s: &str, i: usize, hostname: String, alias: Option<String>) -> (r: Option<
    (Host, usize),
>)
    ensures
        match r {
            Some(p) => parse_host_tail(s@, i as int, hostname@, alias.deep_view()) == Some(
                (p.0@, p.1 as int),
            ) && i < p.1 <= s@.len(),
            None => parse_host_tail(s@, i as int, hostname@, alias.deep_view()) is None,
        },
{
    let i1 = match tok_exec(s, i, "\"authorized_users\":") {
        Some(j) => j,
        None => {
            return None;
        },
    };
    let (aus, i2) = match read_ids(s, i1) {
        Some(p) => p,
        None => {
            return None;
        },
    };
    let i3 = match tok_exec(s, i2, comma()) {
        Some(j) => j,
        None => {
            return None;
        },
    };
    let i4 = match tok_exec(s, i3, "\"authorized_user_groups\":") {
        Some(j) => j,
        None => {
            return None;
        },
    };
    let (ags, i5) = match read_ids(s, i4) {
        Some(p) => p,
        None => {
            return None;
        },
    };
    let i6 = match tok_exec(s, i5, comma()) {
        Some(j) => j,
        None => {
            return None;
        },
    };
    let i7 = match tok_exec(s, i6, "\"sync_todo\":") {
        Some(j) => j,
        None => {
            return None;
        },
    };
    let (st, i8) = match read_bool(s, i7) {
        Some(p) => p,
        None => {
            return None;
        },
    };
    let i9 = match tok_exec(s, i8, rbrace()) {
        Some(j) => j,
        None => {
            return None;
        },
    };
    let h = Host {
        hostname,
        alias,
        authorized_users: aus,
        authorized_user_groups: ags,
        sync_todo: st,
    };
    Some((h, i9))
}

/// Reads one host object at position `i`.
#[verifier::rlimit(100)]
#[verifier::spinoff_prover]
fn read_host(s: &str, i: usize) -> (r: Option<(Host, usize)>)
    ensures
        match r {
            Some(p) => parse_host(s@, i as int) == Some((p.0@, p.1 as int)) && i < p.1 <= s@.len(),
            None => parse_host(s@, i as int) is None,
        },
{
    let i1 = match tok_exec(s, i, lbrace()) {
        Some(j) => j,
        None => {
            return None;
        },
    };
    let i2 = match tok_exec(s, i1, "\"hostname\":") {
        Some(j) => j,
        None => {
            return None;
        },
    };
    let (hostname, i3) = match read_qstr(s, i2) {
        Some(p) => p,
        None => {
            return None;
        },
    };
    let i4 = match tok_exec(s, i3, comma()) {
        Some(j) => j,
        None => {
            return None;
        },
    };
    match tok_exec(s, i4, "\"alias\":") {
        Some(i5) => {
            let (alias, i6) = match read_opt_str(s, i5) {
                Some(p) => p,
                None => {
                    return None;
                },
            };
            let i7 = match tok_exec(s, i6, comma()) {
                Some(j) => j,
                None => {
                    return None;
                },
            };
            read_host_tail(s, i7, hostname, alias)
        },
        None => {
            let alias: Option<String> = None;
            proof {
                assert(alias.deep_view() == None::<Seq<char>>);
            }
            read_host_tail(s, i4, hostname, alias)
        },
    }
}

/// Reads one user object at position `i`.
#[verifier::rlimit(100)]
#[verifier::spinoff_prover]
fn read_user(s: &str, i: usize) -> (r: Option<(User, usize)>)
    ensures
        match r {
            Some(p) => parse_user(s@, i as int) == Some((p.0@, p.1 as int)) && i < p.1 <= s@.len(),
            None => parse_user(s@, i as int) is None,
        },
{
    let i1 = match tok_exec(s, i, lbrace()) {
        Some(j) => j,
        None => {
            return None;
        },
    };
    let i2 = match tok_exec(s, i1, "\"user_id\":") {
        Some(j) => j,
        None => {
            return None;
        },
    };
    let (user_id, i3) = match read_qstr(s, i2) {
        Some(p) => p,
        None => {
            return None;
        },
    };
    let i4 = match tok_exec(s, i3, comma()) {
        Some(j) => j,
        None => {
            return None;
        },
    };
    let i5 = match tok_exec(s, i4, "\"public_key\":") {
        Some(j) => j,
        None => {
            return None;
        },
    };
    let (public_key, i6) = match read_qstr(s, i5) {
        Some(p) => p,
        None => {
            return None;
        },
    };
    let i7 = match tok_exec(s, i6, rbrace()) {
        Some(j) => j,
        None => {
            return None;
        },
    };
    Some((User { user_id, public_key }, i7))
}

/// Reads one group object at position `i`.
#[verifier::rlimit(100)]
#[verifier::spinoff_prover]
fn read_group(s: &str, i: usize) -> (r: Option<(UserGroup, usize)>)
    ensures
        match r {
            Some(p) => parse_group(s@, i as int) == Some((p.0@, p.1 as int)) && i < p.1
                <= s@.len(),
            None => parse_group(s@, i as int) is None,
        },
{
    let i1 = match tok_exec(s, i, lbrace()) {
        Some(j) => j,
        None => {
            return None;
        },
    };
    let i2 = match tok_exec(s, i1, "\"group_id\":") {
        Some(j) => j,
        None => {
            return None;
        },
    };
    let (group_id, i3) = match read_qstr(s, i2) {
        Some(p) => p,
        None => {
            return None;
        },
    };
    let i4 = match tok_exec(s, i3, comma()) {
        Some(j) => j,
        None => {
            return None;
        },
    };
    let i5 = match tok_exec(s, i4, "\"members\":") {
        Some(j) => j,
        None => {
            return None;
        },
    };
    let (members, i6) = match read_ids(s, i5) {
        Some(p) => p,
        None => {
            return None;
        },
    };
    let i7 = match tok_exec(s, i6, rbrace()) {
        Some(j) => j,
        None => {
            return None;
        },
    };
    Some((UserGroup { group_id, members }, i7))
}

/// Reads the bracketed list of host objects at position `i`.
#[verifier::rlimit(100)]
#[verifier::spinoff_prover]
fn read_hosts(s: &str, i: usize) -> (r: Option<(Vec<Host>, usize)>)
    ensures
        match r {
            Some(p) => parse_hosts(s@, i as int) == Some((p.0.deep_view(), p.1 as int)) && i < p.1
                <= s@.len(),
            None => parse_hosts(s@, i as int) is None,
        },
{
    let n = s.unicode_len();
    let j0 = match tok_exec(s, i, lbrack()) {
        Some(j) => j,
        None => {
            return None;
        },
    };
    let j = skip_ws_exec(s, j0);
    if j < n && s.get_char(j) == ']' {
        let v: Vec<Host> = Vec::new();
        proof {
            assert(v.deep_view() =~= Seq::<HostV>::empty());
        }
        return Some((v, j + 1));
    }
    let (h0, k0) = match read_host(s, j) {
        Some(p) => p,
        None => {
            return None;
        },
    };
    let mut acc: Vec<Host> = Vec::new();
    acc.push(h0);
    let mut p: usize = k0;
    proof {
        assert(acc.deep_view() =~= seq![acc@[0]@]);
    }
    while p < n
        invariant
            n == s@.len(),
            i < p <= n,
            match parse_hosts_rest(s@, p as int) {
                Some(q) => parse_hosts(s@, i as int) == Some((acc.deep_view() + q.0, q.1)),
                None => parse_hosts(s@, i as int) is None,
            },
        decreases n - p,
    {
        let jj = skip_ws_exec(s, p);
        if jj >= n {
            return None;
        }
        let c = s.get_char(jj);
        if c == ']' {
            proof {
                assert(acc.deep_view() + Seq::<HostV>::empty() =~= acc.deep_view());
            }
            return Some((acc, jj + 1));
        } else if c == ',' {
            let (h, k) = match read_host(s, jj + 1) {
                Some(q) => q,
                None => {
                    return None;
                },
            };
            let ghost acc0 = acc.deep_view();
            let ghost p0 = p as int;
            acc.push(h);
            proof {
                assert(acc.deep_view() =~= acc0.push(h@));
                if parse_hosts_rest(s@, k as int) is Some {
                    let q = parse_hosts_rest(s@, k as int)->Some_0;
                    assert(parse_hosts_rest(s@, p0) == Some((seq![h@] + q.0, q.1)));
                    assert(acc0 + (seq![h@] + q.0) =~= acc.deep_view() + q.0);
                }
            }
            p = k;
        } else {
            return None;
        }
    }
    None
}

/// Reads the bracketed list of user objects at position `i`.
#[verifier::rlimit(100)]
#[verifier::spinoff_prover]
fn read_users(s: &str, i: usize) -> (r: Option<(Vec<User>, usize)>)
    ensures
        match r {
            Some(p) => parse_users(s@, i as int) == Some((p.0.deep_view(), p.1 as int)) && i < p.1
                <= s@.len(),
            None => parse_users(s@, i as int) is None,
        },
{
    let n = s.unicode_len();
    let j0 = match tok_exec(s, i, lbrack()) {
        Some(j) => j,
        None => {
            return None;
        },
    };
    let j = skip_ws_exec(s, j0);
    if j < n && s.get_char(j) == ']' {
        let v: Vec<User> = Vec::new();
        proof {
            assert(v.deep_view() =~= Seq::<UserV>::empty());
        }
        return Some((v, j + 1));
    }
    let (u0, k0) = match read_user(s, j) {
        Some(p) => p,
        None => {
            return None;
        },
    };
    let mut acc: Vec<User> = Vec::new();
    acc.push(u0);
    let mut p: usize = k0;
    proof {
        assert(acc.deep_view() =~= seq![acc@[0]@]);
    }
    while p < n
        invariant
            n == s@.len(),
            i < p <= n,
            match parse_users_rest(s@, p as int) {
                Some(q) => parse_users(s@, i as int) == Some((acc.deep_view() + q.0, q.1)),
                None => parse_users(s@, i as int) is None,
            },
        decreases n - p,
    {
        let jj = skip_ws_exec(s, p);
        if jj >= n {
            return None;
        }
        let c = s.get_char(jj);
        if c == ']' {
            proof {
                assert(acc.deep_view() + Seq::<UserV>::empty() =~= acc.deep_view());
            }
            return Some((acc, jj + 1));
        } else if c == ',' {
            let (u, k) = match read_user(s, jj + 1) {
                Some(q) => q,
                None => {
                    return None;
                },
            };
            let ghost acc0 = acc.deep_view();
            let ghost p0 = p as int;
            acc.push(u);
            proof {
                assert(acc.deep_view() =~= acc0.push(u@));
                if parse_users_rest(s@, k as int) is Some {
                    let q = parse_users_rest(s@, k as int)->Some_0;
                    assert(parse_users_rest(s@, p0) == Some((seq![u@] + q.0, q.1)));
                    assert(acc0 + (seq![u@] + q.0) =~= acc.deep_view() + q.0);
                }
            }
            p = k;
        } else {
            return None;
        }
    }
    None
}

/// Reads the bracketed list of group objects at position `i`.
#[verifier::rlimit(100)]
#[verifier::spinoff_prover]
fn read_groups(s: &str, i: usize) -> (r: Option<(Vec<UserGroup>, usize)>)
    ensures
        match r {
            Some(p) => parse_groups(s@, i as int) == Some((p.0.deep_view(), p.1 as int)) && i
                < p.1 <= s@.len(),
            None => parse_groups(s@, i as int) is None,
        },
{
    let n = s.unicode_len();
    let j0 = match tok_exec(s, i, lbrack()) {
        Some(j) => j,
        None => {
            return None;
        },
    };
    let j = skip_ws_exec(s, j0);
    if j < n && s.get_char(j) == ']' {
        let v: Vec<UserGroup> = Vec::new();
        proof {
            assert(v.deep_view() =~= Seq::<GroupV>::empty());
        }
        return Some((v, j + 1));
    }
    let (g0, k0) = match read_group(s, j) {
        Some(p) => p,
        None => {
            return None;
        },
    };
    let mut acc: Vec<UserGroup> = Vec::new();
    acc.push(g0);
    let mut p: usize = k0;
    proof {
        assert(acc.deep_view() =~= seq![acc@[0]@]);
    }
    while p < n
        invariant
            n == s@.len(),
            i < p <= n,
            match parse_groups_rest(s@, p as int) {
                Some(q) => parse_groups(s@, i as int) == Some((acc.deep_view() + q.0, q.1)),
                None => parse_groups(s@, i as int) is None,
            },
        decreases n - p,
    {
        let jj = skip_ws_exec(s, p);
        if jj >= n {
            return None;
        }
        let c = s.get_char(jj);
        if c == ']' {
            proof {
                assert(acc.deep_view() + Seq::<GroupV>::empty() =~= acc.deep_view());
            }
            return Some((acc, jj + 1));
        } else if c == ',' {
            let (g, k) = match read_group(s, jj + 1) {
                Some(q) => q,
                None => {
                    return None;
                },
            };
            let ghost acc0 = acc.deep_view();
            let ghost p0 = p as int;
            acc.push(g);
            proof {
                assert(acc.deep_view() =~= acc0.push(g@));
                if parse_groups_rest(s@, k as int) is Some {
                    let q = parse_groups_rest(s@, k as int)->Some_0;
                    assert(parse_groups_rest(s@, p0) == Some((seq![g@] + q.0, q.1)));
                    assert(acc0 + (seq![g@] + q.0) =~= acc.deep_view() + q.0);
                }
            }
            p = k;
        } else {
            return None;
        }
    }
    None
}

/// Reads the metadata fields and the closing brace of the document.
#[verifier::rlimit(100)]
#[verifier::spinoff_prover]
fn read_db_meta(
    s: &str,
    i: usize,
    hosts: Vec<Host>,
    users: Vec<User>,
    user_groups: Vec<UserGroup>,
) -> (r: Option<(Database, usize)>)
    ensures
        match r {
            Some(p) => parse_db_meta(
                s@,
                i as int,
                hosts.deep_view(),
                users.deep_view(),
                user_groups.deep_view(),
            ) == Some((p.0@, p.1 as int)) && p.1 <= s@.len(),
            None => parse_db_meta(
                s@,
                i as int,
                hosts.deep_view(),
                users.deep_view(),
                user_groups.deep_view(),
            ) is None,
        },
{
    let i1 = match tok_exec(s, i, "\"modified_at\":") {
        Some(j) => j,
        None => {
            return None;
        },
    };
    let (modified_at, i2) = match read_qstr(s, i1) {
        Some(p) => p,
        None => {
            return None;
        },
    };
    let i3 = match tok_exec(s, i2, comma()) {
        Some(j) => j,
        None => {
            return None;
        },
    };
    let i4 = match tok_exec(s, i3, "\"schema_version\":") {
        Some(j) => j,
        None => {
            return None;
        },
    };
    let (schema_version, i5) = match read_qstr(s, i4) {
        Some(p) => p,
        None => {
            return None;
        },
    };
    let i6 = match tok_exec(s, i5, rbrace()) {
        Some(j) => j,
        None => {
            return None;
        },
    };
    let db = Database { hosts, users, user_groups, modified_at, schema_version };
    Some((db, i6))
}

/// Parses a whole persisted document.
#[verifier::rlimit(100)]
#[verifier::spinoff_prover]
pub fn json_to_db(s: &str) -> (r: Option<Database>)
    ensures
        match r {
            Some(db) => parse_db(s@) == Some(db@),
            None => parse_db(s@) is None,
        },
{
    let n = s.unicode_len();
    let i1 = match tok_exec(s, 0, lbrace()) {
        Some(j) => j,
        None => {
            return None;
        },
    };
    let i2 = match tok_exec(s, i1, "\"hosts\":") {
        Some(j) => j,
        None => {
            return None;
        },
    };
    let (hosts, i3) = match read_hosts(s, i2) {
        Some(p) => p,
        None => {
            return None;
        },
    };
    let i4 = match tok_exec(s, i3, comma()) {
        Some(j) => j,
        None => {
            return None;
        },
    };
    let i5 = match tok_exec(s, i4, "\"users\":") {
        Some(j) => j,
        None => {
            return None;
        },
    };
    let (users, i6) = match read_users(s, i5) {
        Some(p) => p,
        None => {
            return None;
        },
    };
    let i7 = match tok_exec(s, i6, comma()) {
        Some(j) => j,
        None => {
            return None;
        },
    };
    let i8 = match tok_exec(s, i7, "\"user_groups\":") {
        Some(j) => j,
        None => {
            return None;
        },
    };
    let (user_groups, i9) = match read_groups(s, i8) {
        Some(p) => p,
        None => {
            return None;
        },
    };
    let i10 = match tok_exec(s, i9, comma()) {
        Some(j) => j,
        None => {
            return None;
        },
    };
    let (db, i11) = match read_db_meta(s, i10, hosts, users, user_groups) {
        Some(p) => p,
        None => {
            return None;
        },
    };
    let j = skip_ws_exec(s, i11);
    if j != n {
        return None;
    }
    Some(db)
}

// ---------------------------------------------------------------------------
// The round trip: parsing a rendered document gives the document back.  Each
// lemma shows that the parser, pointed at the spot where a rendered piece
// stands, reads off exactly that piece.  The renderer writes no whitespace,
// so each whitespace skip stops where it starts.
// ---------------------------------------------------------------------------
/// A piece found inside `s` carries its inner ranges with it.
proof fn lemma_sub_at(s: Seq<char>, i: int, r: Seq<char>, a: int, b: int)
    requires
        0 <= i,
        i + r.len() <= s.len(),
        s.subrange(i, i + r.len()) == r,
        0 <= a <= b <= r.len(),
    ensures
        s.subrange(i + a, i + b) == r.subrange(a, b),
{
    assert forall|k: int| 0 <= k < b - a implies s.subrange(i + a, i + b)[k] == r.subrange(a, b)[k] by {
        assert(s.subrange(i, i + r.len())[a + k] == s[i + a + k]);
    }
    assert(s.subrange(i + a, i + b) =~= r.subrange(a, b));
}

/// A concatenation found inside `s` splits into its two halves.
proof fn lemma_split(s: Seq<char>, i: int, a: Seq<char>, b: Seq<char>)
    requires
        0 <= i,
        i + a.len() + b.len() <= s.len(),
        s.subrange(i, i + a.len() + b.len()) == a + b,
    ensures
        s.subrange(i, i + a.len()) == a,
        s.subrange(i + a.len(), i + a.len() + b.len()) == b,
{
    lemma_sub_at(s, i, a + b, 0, a.len() as int);
    assert((a + b).subrange(0, a.len() as int) =~= a);
    lemma_sub_at(s, i, a + b, a.len() as int, (a + b).len() as int);
    assert((a + b).subrange(a.len() as int, (a + b).len() as int) =~= b);
}

/// A whitespace skip stops on a non-whitespace character.
proof fn lemma_ws_stop(s: Seq<char>, i: int)
    requires
        0 <= i < s.len(),
        !is_ws(s[i]),
    ensures
        skip_ws(s, i) == i,
{
}

/// A token standing at position `i` is matched there, with no whitespace to
/// skip.
proof fn lemma_tok_at(s: Seq<char>, i: int, t: Seq<char>)
    requires
        0 <= i,
        t.len() > 0,
        !is_ws(t[0]),
        i + t.len() <= s.len(),
        s.subrange(i, i + t.len()) == t,
    ensures
        tok(s, i, t) == Some(i + t.len()),
{
    assert(s.subrange(i, i + t.len())[0] == s[i]);
    lemma_ws_stop(s, i);
}

/// The escaped body of a string, followed by its closing quote, is read back
/// as the original characters.
#[verifier::rlimit(100)]
#[verifier::spinoff_prover]
proof fn lemma_str_body_at(s: Seq<char>, i: int, t: Seq<char>)
    requires
        0 <= i,
        i + escape(t).len() + 1 <= s.len(),
        s.subrange(i, i + escape(t).len() + 1) == escape(t) + seq!['"'],
    ensures
        parse_str_body(s, i) == Some((t, i + escape(t).len() + 1)),
    decreases t.len(),
{
    let sub = s.subrange(i, i + escape(t).len() + 1);
    if t.len() == 0 {
        assert(escape(t) =~= Seq::<char>::empty());
        assert(s[i] == sub[0]);
        assert(sub[0] == '"');
        assert(parse_str_body(s, i) == Some((Seq::<char>::empty(), i + 1)));
    } else {
        let c = t[0];
        let ec = escape_char(c);
        let t2 = t.drop_first();
        assert(escape(t) == ec + escape(t2));
        assert(t =~= seq![c] + t2);
        if c == '"' || c == '\\' || c == '\n' || c == '\r' || c == '\t' {
            assert(ec.len() == 2 && ec[0] == '\\' && unescape_char(ec[1]) == Some(c));
            assert(s[i] == sub[0] && sub[0] == '\\');
            assert(s[i + 1] == sub[1] && sub[1] == ec[1]);
            lemma_sub_at(s, i, sub, 2, escape(t).len() as int + 1);
            assert(sub.subrange(2, escape(t).len() as int + 1) =~= escape(t2) + seq!['"']);
            lemma_str_body_at(s, i + 2, t2);
            assert(parse_str_body(s, i) == Some((seq![c] + t2, i + escape(t).len() + 1)));
        } else {
            assert(ec =~= seq![c]);
            assert(s[i] == sub[0] && sub[0] == c);
            lemma_sub_at(s, i, sub, 1, escape(t).len() as int + 1);
            assert(sub.subrange(1, escape(t).len() as int + 1) =~= escape(t2) + seq!['"']);
            lemma_str_body_at(s, i + 1, t2);
            assert(parse_str_body(s, i) == Some((seq![c] + t2, i + escape(t).len() + 1)));
        }
    }
}

/// A rendered string standing at position `i` is read back unchanged.
#[verifier::rlimit(100)]
#[verifier::spinoff_prover]
proof fn lemma_string_at(s: Seq<char>, i: int, t: Seq<char>)
    requires
        0 <= i,
        i + render_str(t).len() <= s.len(),
        s.subrange(i, i + render_str(t).len()) == render_str(t),
    ensures
        parse_string(s, i) == Some((t, i + render_str(t).len())),
{
    let sub = s.subrange(i, i + render_str(t).len());
    assert(s[i] == sub[0]);
    assert(sub[0] == '"');
    lemma_sub_at(s, i, sub, 1, render_str(t).len() as int);
    assert(sub.subrange(1, render_str(t).len() as int) =~= escape(t) + seq!['"']);
    lemma_str_body_at(s, i + 1, t);
}

/// A rendered string at position `i` is read back, whitespace skip included.
proof fn lemma_qstr_at(s: Seq<char>, i: int, t: Seq<char>)
    requires
        0 <= i,
        i + render_str(t).len() <= s.len(),
        s.subrange(i, i + render_str(t).len()) == render_str(t),
    ensures
        parse_qstr(s, i) == Some((t, i + render_str(t).len())),
{
    assert(s[i] == s.subrange(i, i + render_str(t).len())[0]);
    assert(s[i] == '"');
    lemma_ws_stop(s, i);
    lemma_string_at(s, i, t);
}

/// A rendered optional string standing at position `i` is read back.
#[verifier::rlimit(100)]
#[verifier::spinoff_prover]
proof fn lemma_opt_str_at(s: Seq<char>, i: int, a: Option<Seq<char>>)
    requires
        0 <= i,
        i + render_opt_str(a).len() <= s.len(),
        s.subrange(i, i + render_opt_str(a).len()) == render_opt_str(a),
    ensures
        parse_opt_str(s, i) == Some((a, i + render_opt_str(a).len())),
{
    match a {
        None => {
            lemma_tok_at(s, i, tok_null());
        },
        Some(t) => {
            let sub = s.subrange(i, i + render_str(t).len());
            assert(s[i] == sub[0]);
            assert(sub[0] == '"');
            lemma_ws_stop(s, i);
            if i + 4 <= s.len() {
                assert(s.subrange(i, i + 4)[0] == '"');
                assert(tok_null()[0] == 'n');
                assert(s.subrange(i, i + 4) != tok_null());
            }
            assert(tok(s, i, tok_null()) is None);
            lemma_qstr_at(s, i, t);
        },
    }
}

/// A rendered boolean standing at position `i` is read back.
#[verifier::rlimit(100)]
#[verifier::spinoff_prover]
proof fn lemma_bool_at(s: Seq<char>, i: int, b: bool)
    requires
        0 <= i,
        i + render_bool(b).len() <= s.len(),
        s.subrange(i, i + render_bool(b).len()) == render_bool(b),
    ensures
        parse_bool(s, i) == Some((b, i + render_bool(b).len())),
{
    if b {
        lemma_tok_at(s, i, tok_true());
    } else {
        let sub = s.subrange(i, i + 5);
        assert(s[i] == sub[0]);
        assert(sub[0] == 'f');
        lemma_ws_stop(s, i);
        if i + 4 <= s.len() {
            assert(s.subrange(i, i + 4)[0] == 'f');
            assert(tok_true()[0] == 't');
            assert(s.subrange(i, i + 4) != tok_true());
        }
        assert(tok(s, i, tok_true()) is None);
        lemma_tok_at(s, i, tok_false());
    }
}

/// The tail of a rendered identifier list is read back.
#[verifier::rlimit(100)]
#[verifier::spinoff_prover]
proof fn lemma_ids_rest_at(s: Seq<char>, i: int, ids: Seq<Seq<char>>)
    requires
        0 <= i,
        i + render_ids_rest(ids).len() <= s.len(),
        s.subrange(i, i + render_ids_rest(ids).len()) == render_ids_rest(ids),
    ensures
        parse_ids_rest(s, i) == Some((ids, i + render_ids_rest(ids).len())),
    decreases ids.len(),
{
    if ids.len() == 0 {
        let sub = s.subrange(i, i + 1);
        assert(s[i] == sub[0]);
        assert(sub[0] == ']');
        lemma_ws_stop(s, i);
    } else {
        let h = render_str(ids[0]);
        let rest = render_ids_rest(ids.drop_first());
        assert(render_ids_rest(ids) == seq![','] + h + rest);
        lemma_split(s, i, seq![','] + h, rest);
        lemma_split(s, i, seq![','], h);
        assert(s[i] == s.subrange(i, i + 1)[0]);
        assert(s[i] == ',');
        lemma_ws_stop(s, i);
        lemma_qstr_at(s, i + 1, ids[0]);
        let j = i + 1 + h.len();
        lemma_ids_rest_at(s, j, ids.drop_first());
        assert(seq![ids[0]] + ids.drop_first() =~= ids);
        assert(parse_ids_rest(s, i) == Some((ids, i + render_ids_rest(ids).len())));
    }
}

/// A rendered identifier list standing at position `i` is read back.
#[verifier::rlimit(100)]
#[verifier::spinoff_prover]
proof fn lemma_ids_at(s: Seq<char>, i: int, ids: Seq<Seq<char>>)
    requires
        0 <= i,
        i + render_ids(ids).len() <= s.len(),
        s.subrange(i, i + render_ids(ids).len()) == render_ids(ids),
    ensures
        parse_ids(s, i) == Some((ids, i + render_ids(ids).len())),
{
    if ids.len() == 0 {
        let sub = s.subrange(i, i + 2);
        assert(s[i] == sub[0] && sub[0] == '[');
        assert(s[i + 1] == sub[1] && sub[1] == ']');
        assert(s.subrange(i, i + 1) =~= seq!['[']);
        lemma_tok_at(s, i, seq!['[']);
        lemma_ws_stop(s, i + 1);
    } else {
        let h = render_str(ids[0]);
        let rest = render_ids_rest(ids.drop_first());
        assert(render_ids(ids) == seq!['['] + h + rest);
        lemma_split(s, i, seq!['['] + h, rest);
        lemma_split(s, i, seq!['['], h);
        lemma_tok_at(s, i, seq!['[']);
        assert(s[i + 1] == s.subrange(i + 1, i + 1 + h.len())[0]);
        assert(s[i + 1] == '"');
        lemma_ws_stop(s, i + 1);
        lemma_string_at(s, i + 1, ids[0]);
        let j = i + 1 + h.len();
        lemma_ids_rest_at(s, j, ids.drop_first());
        assert(seq![ids[0]] + ids.drop_first() =~= ids);
        assert(parse_ids(s, i) == Some((ids, i + render_ids(ids).len())));
    }
}

/// A rendered host object starts with its opening brace.
proof fn lemma_host_starts(h: HostV)
    ensures
        render_host(h).len() >= 2,
        render_host(h)[0] == '{',
{
    let c1 = seq!['{'];
    let c2 = c1 + k_hostname();
    let c3 = c2 + render_str(h.hostname);
    let c4 = c3 + seq![','];
    let c5 = c4 + k_alias();
    let c6 = c5 + render_opt_str(h.alias);
    let c7 = c6 + seq![','];
    let c8 = c7 + k_authorized_users();
    let c9 = c8 + render_ids(h.authorized_users);
    let c10 = c9 + seq![','];
    let c11 = c10 + k_authorized_user_groups();
    let c12 = c11 + render_ids(h.authorized_user_groups);
    let c13 = c12 + seq![','];
    let c14 = c13 + k_sync_todo();
    let c15 = c14 + render_bool(h.sync_todo);
    let c16 = c15 + seq!['}'];
    assert(c16 == render_host(h));
    assert(c2[0] == '{');
    assert(c3[0] == '{');
    assert(c4[0] == '{');
    assert(c5[0] == '{');
    assert(c6[0] == '{');
    assert(c7[0] == '{');
    assert(c8[0] == '{');
    assert(c9[0] == '{');
    assert(c10[0] == '{');
    assert(c11[0] == '{');
    assert(c12[0] == '{');
    assert(c13[0] == '{');
    assert(c14[0] == '{');
    assert(c15[0] == '{');
    assert(c16[0] == '{');
}

/// A rendered user object starts with its opening brace.
proof fn lemma_user_starts(u: UserV)
    ensures
        render_user(u).len() >= 2,
        render_user(u)[0] == '{',
{
    let c1 = seq!['{'];
    let c2 = c1 + k_user_id();
    let c3 = c2 + render_str(u.user_id);
    let c4 = c3 + seq![','];
    let c5 = c4 + k_public_key();
    let c6 = c5 + render_str(u.public_key);
    let c7 = c6 + seq!['}'];
    assert(c7 == render_user(u));
    assert(c2[0] == '{');
    assert(c3[0] == '{');
    assert(c4[0] == '{');
    assert(c5[0] == '{');
    assert(c6[0] == '{');
    assert(c7[0] == '{');
}

/// A rendered group object starts with its opening brace.
proof fn lemma_group_starts(g: GroupV)
    ensures
        render_group(g).len() >= 2,
        render_group(g)[0] == '{',
{
    let c1 = seq!['{'];
    let c2 = c1 + k_group_id();
    let c3 = c2 + render_str(g.group_id);
    let c4 = c3 + seq![','];
    let c5 = c4 + k_members();
    let c6 = c5 + render_ids(g.members);
    let c7 = c6 + seq!['}'];
    assert(c7 == render_group(g));
    assert(c2[0] == '{');
    assert(c3[0] == '{');
    assert(c4[0] == '{');
    assert(c5[0] == '{');
    assert(c6[0] == '{');
    assert(c7[0] == '{');
}

/// A rendered host object standing at position `i` is read back unchanged.
#[verifier::rlimit(100)]
#[verifier::spinoff_prover]
proof fn lemma_host_at(s: Seq<char>, i: int, h: HostV)
    requires
        0 <= i,
        i + render_host(h).len() <= s.len(),
        s.subrange(i, i + render_host(h).len()) == render_host(h),
    ensures
        parse_host(s, i) == Some((h, i + render_host(h).len())),
{
    reveal_strlit("\"hostname\":");
    reveal_strlit("\"alias\":");
    reveal_strlit("\"authorized_users\":");
    reveal_strlit("\"authorized_user_groups\":");
    reveal_strlit("\"sync_todo\":");
    let c1 = seq!['{'];
    let c2 = c1 + k_hostname();
    let c3 = c2 + render_str(h.hostname);
    let c4 = c3 + seq![','];
    let c5 = c4 + k_alias();
    let c6 = c5 + render_opt_str(h.alias);
    let c7 = c6 + seq![','];
    let c8 = c7 + k_authorized_users();
    let c9 = c8 + render_ids(h.authorized_users);
    let c10 = c9 + seq![','];
    let c11 = c10 + k_authorized_user_groups();
    let c12 = c11 + render_ids(h.authorized_user_groups);
    let c13 = c12 + seq![','];
    let c14 = c13 + k_sync_todo();
    let c15 = c14 + render_bool(h.sync_todo);
    let c16 = c15 + seq!['}'];
    assert(c16 == render_host(h));
    lemma_split(s, i, c15, seq!['}']);
    lemma_split(s, i, c14, render_bool(h.sync_todo));
    lemma_split(s, i, c13, k_sync_todo());
    lemma_split(s, i, c12, seq![',']);
    lemma_split(s, i, c11, render_ids(h.authorized_user_groups));
    lemma_split(s, i, c10, k_authorized_user_groups());
    lemma_split(s, i, c9, seq![',']);
    lemma_split(s, i, c8, render_ids(h.authorized_users));
    lemma_split(s, i, c7, k_authorized_users());
    lemma_split(s, i, c6, seq![',']);
    lemma_split(s, i, c5, render_opt_str(h.alias));
    lemma_split(s, i, c4, k_alias());
    lemma_split(s, i, c3, seq![',']);
    lemma_split(s, i, c2, render_str(h.hostname));
    lemma_split(s, i, c1, k_hostname());
    lemma_tok_at(s, i, seq!['{']);
    lemma_tok_at(s, i + c1.len(), k_hostname());
    lemma_qstr_at(s, i + c2.len(), h.hostname);
    lemma_tok_at(s, i + c3.len(), seq![',']);
    lemma_tok_at(s, i + c4.len(), k_alias());
    lemma_opt_str_at(s, i + c5.len(), h.alias);
    lemma_tok_at(s, i + c6.len(), seq![',']);
    lemma_tok_at(s, i + c7.len(), k_authorized_users());
    lemma_ids_at(s, i + c8.len(), h.authorized_users);
    lemma_tok_at(s, i + c9.len(), seq![',']);
    lemma_tok_at(s, i + c10.len(), k_authorized_user_groups());
    lemma_ids_at(s, i + c11.len(), h.authorized_user_groups);
    lemma_tok_at(s, i + c12.len(), seq![',']);
    lemma_tok_at(s, i + c13.len(), k_sync_todo());
    lemma_bool_at(s, i + c14.len(), h.sync_todo);
    lemma_tok_at(s, i + c15.len(), seq!['}']);
    assert(h == HostV {
        hostname: h.hostname,
        alias: h.alias,
        authorized_users: h.authorized_users,
        authorized_user_groups: h.authorized_user_groups,
        sync_todo: h.sync_todo,
    });
    assert(parse_host_tail(s, i + c7.len(), h.hostname, h.alias) == Some(
        (h, i + render_host(h).len()),
    ));
    assert(parse_host(s, i) == Some((h, i + render_host(h).len())));
}

/// A rendered user object standing at position `i` is read back unchanged.
#[verifier::rlimit(100)]
#[verifier::spinoff_prover]
proof fn lemma_user_at(s: Seq<char>, i: int, u: UserV)
    requires
        0 <= i,
        i + render_user(u).len() <= s.len(),
        s.subrange(i, i + render_user(u).len()) == render_user(u),
    ensures
        parse_user(s, i) == Some((u, i + render_user(u).len())),
{
    reveal_strlit("\"user_id\":");
    reveal_strlit("\"public_key\":");
    let c1 = seq!['{'];
    let c2 = c1 + k_user_id();
    let c3 = c2 + render_str(u.user_id);
    let c4 = c3 + seq![','];
    let c5 = c4 + k_public_key();
    let c6 = c5 + render_str(u.public_key);
    let c7 = c6 + seq!['}'];
    assert(c7 == render_user(u));
    lemma_split(s, i, c6, seq!['}']);
    lemma_split(s, i, c5, render_str(u.public_key));
    lemma_split(s, i, c4, k_public_key());
    lemma_split(s, i, c3, seq![',']);
    lemma_split(s, i, c2, render_str(u.user_id));
    lemma_split(s, i, c1, k_user_id());
    lemma_tok_at(s, i, seq!['{']);
    lemma_tok_at(s, i + c1.len(), k_user_id());
    lemma_qstr_at(s, i + c2.len(), u.user_id);
    lemma_tok_at(s, i + c3.len(), seq![',']);
    lemma_tok_at(s, i + c4.len(), k_public_key());
    lemma_qstr_at(s, i + c5.len(), u.public_key);
    lemma_tok_at(s, i + c6.len(), seq!['}']);
    assert(u == UserV { user_id: u.user_id, public_key: u.public_key });
    assert(parse_user(s, i) == Some((u, i + render_user(u).len())));
}

/// A rendered group object standing at position `i` is read back unchanged.
#[verifier::rlimit(100)]
#[verifier::spinoff_prover]
proof fn lemma_group_at(s: Seq<char>, i: int, g: GroupV)
    requires
        0 <= i,
        i + render_group(g).len() <= s.len(),
        s.subrange(i, i + render_group(g).len()) == render_group(g),
    ensures
        parse_group(s, i) == Some((g, i + render_group(g).len())),
{
    reveal_strlit("\"group_id\":");
    reveal_strlit("\"members\":");
    let c1 = seq!['{'];
    let c2 = c1 + k_group_id();
    let c3 = c2 + render_str(g.group_id);
    let c4 = c3 + seq![','];
    let c5 = c4 + k_members();
    let c6 = c5 + render_ids(g.members);
    let c7 = c6 + seq!['}'];
    assert(c7 == render_group(g));
    lemma_split(s, i, c6, seq!['}']);
    lemma_split(s, i, c5, render_ids(g.members));
    lemma_split(s, i, c4, k_members());
    lemma_split(s, i, c3, seq![',']);
    lemma_split(s, i, c2, render_str(g.group_id));
    lemma_split(s, i, c1, k_group_id());
    lemma_tok_at(s, i, seq!['{']);
    lemma_tok_at(s, i + c1.len(), k_group_id());
    lemma_qstr_at(s, i + c2.len(), g.group_id);
    lemma_tok_at(s, i + c3.len(), seq![',']);
    lemma_tok_at(s, i + c4.len(), k_members());
    lemma_ids_at(s, i + c5.len(), g.members);
    lemma_tok_at(s, i + c6.len(), seq!['}']);
    assert(g == GroupV { group_id: g.group_id, members: g.members });
    assert(parse_group(s, i) == Some((g, i + render_group(g).len())));
}

/// The tail of a rendered host list is read back.
#[verifier::rlimit(100)]
#[verifier::spinoff_prover]
proof fn lemma_hosts_rest_at(s: Seq<char>, i: int, hs: Seq<HostV>)
    requires
        0 <= i,
        i + render_hosts_rest(hs).len() <= s.len(),
        s.subrange(i, i + render_hosts_rest(hs).len()) == render_hosts_rest(hs),
    ensures
        parse_hosts_rest(s, i) == Some((hs, i + render_hosts_rest(hs).len())),
    decreases hs.len(),
{
    if hs.len() == 0 {
        let sub = s.subrange(i, i + 1);
        assert(s[i] == sub[0]);
        assert(sub[0] == ']');
        lemma_ws_stop(s, i);
    } else {
        let h = render_host(hs[0]);
        let rest = render_hosts_rest(hs.drop_first());
        assert(render_hosts_rest(hs) == seq![','] + h + rest);
        lemma_split(s, i, seq![','] + h, rest);
        lemma_split(s, i, seq![','], h);
        assert(s[i] == s.subrange(i, i + 1)[0]);
        assert(s[i] == ',');
        lemma_ws_stop(s, i);
        lemma_host_at(s, i + 1, hs[0]);
        lemma_host_starts(hs[0]);
        let j = i + 1 + h.len();
        lemma_hosts_rest_at(s, j, hs.drop_first());
        assert(seq![hs[0]] + hs.drop_first() =~= hs);
        assert(parse_hosts_rest(s, i) == Some((hs, i + render_hosts_rest(hs).len())));
    }
}

/// A rendered host list standing at position `i` is read back.
#[verifier::rlimit(100)]
#[verifier::spinoff_prover]
proof fn lemma_hosts_at(s: Seq<char>, i: int, hs: Seq<HostV>)
    requires
        0 <= i,
        i + render_hosts(hs).len() <= s.len(),
        s.subrange(i, i + render_hosts(hs).len()) == render_hosts(hs),
    ensures
        parse_hosts(s, i) == Some((hs, i + render_hosts(hs).len())),
{
    if hs.len() == 0 {
        let sub = s.subrange(i, i + 2);
        assert(s[i] == sub[0] && sub[0] == '[');
        assert(s[i + 1] == sub[1] && sub[1] == ']');
        assert(s.subrange(i, i + 1) =~= seq!['[']);
        lemma_tok_at(s, i, seq!['[']);
        lemma_ws_stop(s, i + 1);
    } else {
        let h = render_host(hs[0]);
        let rest = render_hosts_rest(hs.drop_first());
        assert(render_hosts(hs) == seq!['['] + h + rest);
        lemma_split(s, i, seq!['['] + h, rest);
        lemma_split(s, i, seq!['['], h);
        lemma_tok_at(s, i, seq!['[']);
        lemma_host_starts(hs[0]);
        assert(s[i + 1] == s.subrange(i + 1, i + 1 + h.len())[0]);
        assert(s[i + 1] == '{');
        lemma_ws_stop(s, i + 1);
        lemma_host_at(s, i + 1, hs[0]);
        let j = i + 1 + h.len();
        lemma_hosts_rest_at(s, j, hs.drop_first());
        assert(seq![hs[0]] + hs.drop_first() =~= hs);
        assert(parse_hosts(s, i) == Some((hs, i + render_hosts(hs).len())));
    }
}

/// The tail of a rendered user list is read back.
#[verifier::rlimit(100)]
#[verifier::spinoff_prover]
proof fn lemma_users_rest_at(s: Seq<char>, i: int, us: Seq<UserV>)
    requires
        0 <= i,
        i + render_users_rest(us).len() <= s.len(),
        s.subrange(i, i + render_users_rest(us).len()) == render_users_rest(us),
    ensures
        parse_users_rest(s, i) == Some((us, i + render_users_rest(us).len())),
    decreases us.len(),
{
    if us.len() == 0 {
        let sub = s.subrange(i, i + 1);
        assert(s[i] == sub[0]);
        assert(sub[0] == ']');
        lemma_ws_stop(s, i);
    } else {
        let u = render_user(us[0]);
        let rest = render_users_rest(us.drop_first());
        assert(render_users_rest(us) == seq![','] + u + rest);
        lemma_split(s, i, seq![','] + u, rest);
        lemma_split(s, i, seq![','], u);
        assert(s[i] == s.subrange(i, i + 1)[0]);
        assert(s[i] == ',');
        lemma_ws_stop(s, i);
        lemma_user_at(s, i + 1, us[0]);
        lemma_user_starts(us[0]);
        let j = i + 1 + u.len();
        lemma_users_rest_at(s, j, us.drop_first());
        assert(seq![us[0]] + us.drop_first() =~= us);
        assert(parse_users_rest(s, i) == Some((us, i + render_users_rest(us).len())));
    }
}

/// A rendered user list standing at position `i` is read back.
#[verifier::rlimit(100)]
#[verifier::spinoff_prover]
proof fn lemma_users_at(s: Seq<char>, i: int, us: Seq<UserV>)
    requires
        0 <= i,
        i + render_users(us).len() <= s.len(),
        s.subrange(i, i + render_users(us).len()) == render_users(us),
    ensures
        parse_users(s, i) == Some((us, i + render_users(us).len())),
{
    if us.len() == 0 {
        let sub = s.subrange(i, i + 2);
        assert(s[i] == sub[0] && sub[0] == '[');
        assert(s[i + 1] == sub[1] && sub[1] == ']');
        assert(s.subrange(i, i + 1) =~= seq!['[']);
        lemma_tok_at(s, i, seq!['[']);
        lemma_ws_stop(s, i + 1);
    } else {
        let u = render_user(us[0]);
        let rest = render_users_rest(us.drop_first());
        assert(render_users(us) == seq!['['] + u + rest);
        lemma_split(s, i, seq!['['] + u, rest);
        lemma_split(s, i, seq!['['], u);
        lemma_tok_at(s, i, seq!['[']);
        lemma_user_starts(us[0]);
        assert(s[i + 1] == s.subrange(i + 1, i + 1 + u.len())[0]);
        assert(s[i + 1] == '{');
        lemma_ws_stop(s, i + 1);
        lemma_user_at(s, i + 1, us[0]);
        let j = i + 1 + u.len();
        lemma_users_rest_at(s, j, us.drop_first());
        assert(seq![us[0]] + us.drop_first() =~= us);
        assert(parse_users(s, i) == Some((us, i + render_users(us).len())));
    }
}

/// The tail of a rendered group list is read back.
#[verifier::rlimit(100)]
#[verifier::spinoff_prover]
proof fn lemma_groups_rest_at(s: Seq<char>, i: int, gs: Seq<GroupV>)
    requires
        0 <= i,
        i + render_groups_rest(gs).len() <= s.len(),
        s.subrange(i, i + render_groups_rest(gs).len()) == render_groups_rest(gs),
    ensures
        parse_groups_rest(s, i) == Some((gs, i + render_groups_rest(gs).len())),
    decreases gs.len(),
{
    if gs.len() == 0 {
        let sub = s.subrange(i, i + 1);
        assert(s[i] == sub[0]);
        assert(sub[0] == ']');
        lemma_ws_stop(s, i);
    } else {
        let g = render_group(gs[0]);
        let rest = render_groups_rest(gs.drop_first());
        assert(render_groups_rest(gs) == seq![','] + g + rest);
        lemma_split(s, i, seq![','] + g, rest);
        lemma_split(s, i, seq![','], g);
        assert(s[i] == s.subrange(i, i + 1)[0]);
        assert(s[i] == ',');
        lemma_ws_stop(s, i);
        lemma_group_at(s, i + 1, gs[0]);
        lemma_group_starts(gs[0]);
        let j = i + 1 + g.len();
        lemma_groups_rest_at(s, j, gs.drop_first());
        assert(seq![gs[0]] + gs.drop_first() =~= gs);
        assert(parse_groups_rest(s, i) == Some((gs, i + render_groups_rest(gs).len())));
    }
}

/// A rendered group list standing at position `i` is read back.
#[verifier::rlimit(100)]
#[verifier::spinoff_prover]
proof fn lemma_groups_at(s: Seq<char>, i: int, gs: Seq<GroupV>)
    requires
        0 <= i,
        i + render_groups(gs).len() <= s.len(),
        s.subrange(i, i + render_groups(gs).len()) == render_groups(gs),
    ensures
        parse_groups(s, i) == Some((gs, i + render_groups(gs).len())),
{
    if gs.len() == 0 {
        let sub = s.subrange(i, i + 2);
        assert(s[i] == sub[0] && sub[0] == '[');
        assert(s[i + 1] == sub[1] && sub[1] == ']');
        assert(s.subrange(i, i + 1) =~= seq!['[']);
        lemma_tok_at(s, i, seq!['[']);
        lemma_ws_stop(s, i + 1);
    } else {
        let g = render_group(gs[0]);
        let rest = render_groups_rest(gs.drop_first());
        assert(render_groups(gs) == seq!['['] + g + rest);
        lemma_split(s, i, seq!['['] + g, rest);
        lemma_split(s, i, seq!['['], g);
        lemma_tok_at(s, i, seq!['[']);
        lemma_group_starts(gs[0]);
        assert(s[i + 1] == s.subrange(i + 1, i + 1 + g.len())[0]);
        assert(s[i + 1] == '{');
        lemma_ws_stop(s, i + 1);
        lemma_group_at(s, i + 1, gs[0]);
        let j = i + 1 + g.len();
        lemma_groups_rest_at(s, j, gs.drop_first());
        assert(seq![gs[0]] + gs.drop_first() =~= gs);
        assert(parse_groups(s, i) == Some((gs, i + render_groups(gs).len())));
    }
}

/// Position just past the document's opening brace.
spec fn o_brace(i: int) -> int {
    i + 1
}

/// Position just past the hosts key.
spec fn o_k_hosts(i: int) -> int {
    o_brace(i) + k_hosts().len()
}

/// Position just past the rendered host list.
spec fn o_hosts(d: DbV, i: int) -> int {
    o_k_hosts(i) + render_hosts(d.hosts).len()
}

/// Position just past the comma behind the host list.
spec fn o_c1(d: DbV, i: int) -> int {
    o_hosts(d, i) + 1
}

/// Position just past the users key.
spec fn o_k_users(d: DbV, i: int) -> int {
    o_c1(d, i) + k_users().len()
}

/// Position just past the rendered user list.
spec fn o_users(d: DbV, i: int) -> int {
    o_k_users(d, i) + render_users(d.users).len()
}

/// Position just past the comma behind the user list.
spec fn o_c2(d: DbV, i: int) -> int {
    o_users(d, i) + 1
}

/// Position just past the groups key.
spec fn o_k_groups(d: DbV, i: int) -> int {
    o_c2(d, i) + k_user_groups().len()
}

/// Position just past the rendered group list.
spec fn o_groups(d: DbV, i: int) -> int {
    o_k_groups(d, i) + render_groups(d.user_groups).len()
}

/// Position just past the comma behind the group list.
spec fn o_c3(d: DbV, i: int) -> int {
    o_groups(d, i) + 1
}

/// Position just past the modification-time key.
spec fn o_k_ma(d: DbV, i: int) -> int {
    o_c3(d, i) + k_modified_at().len()
}

/// Position just past the rendered modification time.
spec fn o_ma(d: DbV, i: int) -> int {
    o_k_ma(d, i) + render_str(d.modified_at).len()
}

/// Position just past the comma behind the modification time.
spec fn o_c4(d: DbV, i: int) -> int {
    o_ma(d, i) + 1
}

/// Position just past the schema-version key.
spec fn o_k_sv(d: DbV, i: int) -> int {
    o_c4(d, i) + k_schema_version().len()
}

/// Position just past the rendered schema version.
spec fn o_sv(d: DbV, i: int) -> int {
    o_k_sv(d, i) + render_str(d.schema_version).len()
}

/// A rendered document at position `i` places each of its pieces at its
/// offset.
#[verifier::rlimit(100)]
#[verifier::spinoff_prover]
proof fn lemma_db_obj_pieces(s: Seq<char>, i: int, d: DbV)
    requires
        0 <= i,
        i + render_db(d).len() <= s.len(),
        s.subrange(i, i + render_db(d).len()) == render_db(d),
    ensures
        o_sv(d, i) + 1 == i + render_db(d).len(),
        s.subrange(i, o_brace(i)) == seq!['{'],
        s.subrange(o_brace(i), o_k_hosts(i)) == k_hosts(),
        s.subrange(o_k_hosts(i), o_hosts(d, i)) == render_hosts(d.hosts),
        s.subrange(o_hosts(d, i), o_c1(d, i)) == seq![','],
        s.subrange(o_c1(d, i), o_k_users(d, i)) == k_users(),
        s.subrange(o_k_users(d, i), o_users(d, i)) == render_users(d.users),
        s.subrange(o_users(d, i), o_c2(d, i)) == seq![','],
        s.subrange(o_c2(d, i), o_k_groups(d, i)) == k_user_groups(),
        s.subrange(o_k_groups(d, i), o_groups(d, i)) == render_groups(d.user_groups),
        s.subrange(o_groups(d, i), o_c3(d, i)) == seq![','],
        s.subrange(o_c3(d, i), o_k_ma(d, i)) == k_modified_at(),
        s.subrange(o_k_ma(d, i), o_ma(d, i)) == render_str(d.modified_at),
        s.subrange(o_ma(d, i), o_c4(d, i)) == seq![','],
        s.subrange(o_c4(d, i), o_k_sv(d, i)) == k_schema_version(),
        s.subrange(o_k_sv(d, i), o_sv(d, i)) == render_str(d.schema_version),
        s.subrange(o_sv(d, i), o_sv(d, i) + 1) == seq!['}'],
{
    let c1 = seq!['{'];
    let c2 = c1 + k_hosts();
    let c3 = c2 + render_hosts(d.hosts);
    let c4 = c3 + seq![','];
    let c5 = c4 + k_users();
    let c6 = c5 + render_users(d.users);
    let c7 = c6 + seq![','];
    let c8 = c7 + k_user_groups();
    let c9 = c8 + render_groups(d.user_groups);
    let c10 = c9 + seq![','];
    let c11 = c10 + k_modified_at();
    let c12 = c11 + render_str(d.modified_at);
    let c13 = c12 + seq![','];
    let c14 = c13 + k_schema_version();
    let c15 = c14 + render_str(d.schema_version);
    let c16 = c15 + seq!['}'];
    assert(c16 == render_db(d));
    lemma_split(s, i, c15, seq!['}']);
    lemma_split(s, i, c14, render_str(d.schema_version));
    lemma_split(s, i, c13, k_schema_version());
    lemma_split(s, i, c12, seq![',']);
    lemma_split(s, i, c11, render_str(d.modified_at));
    lemma_split(s, i, c10, k_modified_at());
    lemma_split(s, i, c9, seq![',']);
    lemma_split(s, i, c8, render_groups(d.user_groups));
    lemma_split(s, i, c7, k_user_groups());
    lemma_split(s, i, c6, seq![',']);
    lemma_split(s, i, c5, render_users(d.users));
    lemma_split(s, i, c4, k_users());
    lemma_split(s, i, c3, seq![',']);
    lemma_split(s, i, c2, render_hosts(d.hosts));
    lemma_split(s, i, c1, k_hosts());
}

/// The metadata fields of a rendered document are read back.
#[verifier::rlimit(100)]
#[verifier::spinoff_prover]
proof fn lemma_db_meta_at(s: Seq<char>, i: int, d: DbV)
    requires
        0 <= i,
        i + render_db(d).len() <= s.len(),
        s.subrange(o_c3(d, i), o_k_ma(d, i)) == k_modified_at(),
        s.subrange(o_k_ma(d, i), o_ma(d, i)) == render_str(d.modified_at),
        s.subrange(o_ma(d, i), o_c4(d, i)) == seq![','],
        s.subrange(o_c4(d, i), o_k_sv(d, i)) == k_schema_version(),
        s.subrange(o_k_sv(d, i), o_sv(d, i)) == render_str(d.schema_version),
        s.subrange(o_sv(d, i), o_sv(d, i) + 1) == seq!['}'],
        o_c3(d, i) >= 0,
        o_sv(d, i) + 1 <= s.len(),
    ensures
        parse_db_meta(s, o_c3(d, i), d.hosts, d.users, d.user_groups) == Some(
            (d, o_sv(d, i) + 1),
        ),
{
    reveal_strlit("\"modified_at\":");
    reveal_strlit("\"schema_version\":");
    lemma_tok_at(s, o_c3(d, i), k_modified_at());
    lemma_qstr_at(s, o_k_ma(d, i), d.modified_at);
    lemma_tok_at(s, o_ma(d, i), seq![',']);
    lemma_tok_at(s, o_c4(d, i), k_schema_version());
    lemma_qstr_at(s, o_k_sv(d, i), d.schema_version);
    lemma_tok_at(s, o_sv(d, i), seq!['}']);
    assert(d == DbV {
        hosts: d.hosts,
        users: d.users,
        user_groups: d.user_groups,
        modified_at: d.modified_at,
        schema_version: d.schema_version,
    });
    assert(parse_db_meta(s, o_c3(d, i), d.hosts, d.users, d.user_groups) == Some(
        (d, o_sv(d, i) + 1),
    ));
}

/// A rendered document object standing at position `i` is read back
/// unchanged.
#[verifier::rlimit(100)]
#[verifier::spinoff_prover]
proof fn lemma_db_obj_at(s: Seq<char>, i: int, d: DbV)
    requires
        0 <= i,
        i + render_db(d).len() <= s.len(),
        s.subrange(i, i + render_db(d).len()) == render_db(d),
    ensures
        parse_db_obj(s, i) == Some((d, i + render_db(d).len())),
{
    reveal_strlit("\"hosts\":");
    reveal_strlit("\"users\":");
    reveal_strlit("\"user_groups\":");
    lemma_db_obj_pieces(s, i, d);
    lemma_tok_at(s, i, seq!['{']);
    lemma_tok_at(s, o_brace(i), k_hosts());
    lemma_hosts_at(s, o_k_hosts(i), d.hosts);
    lemma_tok_at(s, o_hosts(d, i), seq![',']);
    lemma_tok_at(s, o_c1(d, i), k_users());
    lemma_users_at(s, o_k_users(d, i), d.users);
    lemma_tok_at(s, o_users(d, i), seq![',']);
    lemma_tok_at(s, o_c2(d, i), k_user_groups());
    lemma_groups_at(s, o_k_groups(d, i), d.user_groups);
    lemma_tok_at(s, o_groups(d, i), seq![',']);
    lemma_db_meta_at(s, i, d);
    assert(parse_db_obj(s, i) == Some((d, i + render_db(d).len())));
}

/// The round trip of persistence: parsing the rendered document of any store
/// state gives exactly that state back, every host, user, group and both
/// metadata fields included.
#[verifier::rlimit(100)]
#[verifier::spinoff_prover]
pub proof fn lemma_parse_render_round_trip(d: DbV)
    ensures
        parse_db(render_db(d)) == Some(d),
{
    let s = render_db(d);
    assert(s.subrange(0, s.len() as int) =~= s);
    lemma_db_obj_at(s, 0, d);
}

impl Database {
    /// Stamps the store for saving and hands back the persisted text: the
    /// modification time is set to the clock's current reading and the schema
    /// version is re-stamped to the current constant; the collections are
    /// untouched.
    pub fn save_to_json(&mut self) -> (out: String)
        ensures
            final(self)@.hosts == old(self)@.hosts,
            final(self)@.users == old(self)@.users,
            final(self)@.user_groups == old(self)@.user_groups,
            final(self)@.modified_at.len() > 0,
            utc_stamp_shape(final(self)@.modified_at),
            final(self)@.schema_version == SCHEMA_VERSION@,
            out@ == render_db(final(self)@),
    {
        self.modified_at = current_utc_timestamp();
        self.schema_version = SCHEMA_VERSION.to_owned();
        db_to_json(self)
    }

    /// Rebuilds a store from its persisted text.  Succeeds exactly on texts
    /// of the persisted shape; on any other text the format error comes back.
    pub fn load_from_json(text: &str) -> (r: Result<Database, DbError>)
        ensures
            match r {
                Ok(db) => parse_db(text@) == Some(db@),
                Err(e) => parse_db(text@) is None && e == DbError::FormatError,
            },
    {
        match json_to_db(text) {
            Some(db) => Ok(db),
            None => Err(DbError::FormatError),
        }
    }
}

} // verus!
