//! The in-memory access-control store: hosts, users, user groups, and the
//! identity and grant queries over them.

use vstd::prelude::*;

verus! {

/// Revision tag of the persisted format, stamped on every save.
pub const SCHEMA_VERSION: &'static str = "0.1.0";

/// A machine to which access is governed, identified by `hostname` and an
/// optional `alias`.  Grants are stored as identifier references.
#[derive(Debug)]
pub struct Host {
    pub hostname: String,
    pub alias: Option<String>,
    pub authorized_users: Vec<String>,
    pub authorized_user_groups: Vec<String>,
    pub sync_todo: bool,
}

/// A credential holder: stable identifier plus an opaque public key string.
#[derive(Debug)]
pub struct User {
    pub user_id: String,
    pub public_key: String,
}

/// A named collection of user identifiers, granting access collectively.
#[derive(Debug)]
pub struct UserGroup {
    pub group_id: String,
    pub members: Vec<String>,
}

/// The whole store: the three entity collections plus persistence metadata.
#[derive(Debug)]
pub struct Database {
    pub hosts: Vec<Host>,
    pub users: Vec<User>,
    pub user_groups: Vec<UserGroup>,
    pub modified_at: String,
    pub schema_version: String,
}

/// Mathematical model of a `Host`.
pub struct HostV {
    pub hostname: Seq<char>,
    pub alias: Option<Seq<char>>,
    pub authorized_users: Seq<Seq<char>>,
    pub authorized_user_groups: Seq<Seq<char>>,
    pub sync_todo: bool,
}

/// Mathematical model of a `User`.
pub struct UserV {
    pub user_id: Seq<char>,
    pub public_key: Seq<char>,
}

/// Mathematical model of a `UserGroup`.
pub struct GroupV {
    pub group_id: Seq<char>,
    pub members: Seq<Seq<char>>,
}

/// Mathematical model of a `Database`.
pub struct DbV {
    pub hosts: Seq<HostV>,
    pub users: Seq<UserV>,
    pub user_groups: Seq<GroupV>,
    pub modified_at: Seq<char>,
    pub schema_version: Seq<char>,
}

impl View for Host {
    type V = HostV;

    open spec fn view(&self) -> HostV {
        HostV {
            hostname: self.hostname@,
            alias: self.alias.deep_view(),
            authorized_users: self.authorized_users.deep_view(),
            authorized_user_groups: self.authorized_user_groups.deep_view(),
            sync_todo: self.sync_todo,
        }
    }
}

impl DeepView for Host {
    type V = HostV;

    open spec fn deep_view(&self) -> HostV {
        self.view()
    }
}

impl View for User {
    type V = UserV;

    open spec fn view(&self) -> UserV {
        UserV { user_id: self.user_id@, public_key: self.public_key@ }
    }
}

impl DeepView for User {
    type V = UserV;

    open spec fn deep_view(&self) -> UserV {
        self.view()
    }
}

impl View for UserGroup {
    type V = GroupV;

    open spec fn view(&self) -> GroupV {
        GroupV { group_id: self.group_id@, members: self.members.deep_view() }
    }
}

impl DeepView for UserGroup {
    type V = GroupV;

    open spec fn deep_view(&self) -> GroupV {
        self.view()
    }
}

impl View for Database {
    type V = DbV;

    open spec fn view(&self) -> DbV {
        DbV {
            hosts: self.hosts.deep_view(),
            users: self.users.deep_view(),
            user_groups: self.user_groups.deep_view(),
            modified_at: self.modified_at@,
            schema_version: self.schema_version@,
        }
    }
}

/// A query matches a host when it equals the hostname or the alias; the two
/// form one combined keyspace for lookup.
pub open spec fn host_matches(h: HostV, q: Seq<char>) -> bool {
    h.hostname == q || h.alias == Some(q)
}

/// A query matches by alias alone, never by hostname.
pub open spec fn alias_matches(h: HostV, q: Seq<char>) -> bool {
    h.alias == Some(q)
}

/// Character-for-character string equality.
pub fn str_eq(a: &str, b: &str) -> (r: bool)
    ensures
        r == (a@ == b@),
{
    let alen = a.unicode_len();
    let blen = b.unicode_len();
    if alen != blen {
        return false;
    }
    let mut i: usize = 0;
    while i < alen
        invariant
            alen == a@.len(),
            blen == b@.len(),
            alen == blen,
            i <= alen,
            forall|j: int| 0 <= j < i ==> a@[j] == b@[j],
        decreases alen - i,
    {
        if a.get_char(i) != b.get_char(i) {
            return false;
        }
        i = i + 1;
    }
    proof {
        assert(a@ =~= b@);
    }
    true
}

/// Whether an identifier occurs in a list of identifiers.
pub fn contains_id(ids: &Vec<String>, id: &str) -> (r: bool)
    ensures
        r == ids.deep_view().contains(id@),
{
    let mut i: usize = 0;
    while i < ids.len()
        invariant
            i <= ids@.len(),
            forall|j: int| 0 <= j < i ==> ids.deep_view()[j] != id@,
        decreases ids@.len() - i,
    {
        if str_eq(ids[i].as_str(), id) {
            assert(ids.deep_view()[i as int] == id@);
            return true;
        }
        i = i + 1;
    }
    assert(forall|j: int| 0 <= j < ids.deep_view().len() ==> ids.deep_view()[j] != id@);
    false
}

impl Default for Database {
    /// A fresh, empty store carrying the current schema version and no
    /// modification stamp yet.
    fn default() -> (d: Database)
        ensures
            d@.hosts =~= Seq::<HostV>::empty(),
            d@.users =~= Seq::<UserV>::empty(),
            d@.user_groups =~= Seq::<GroupV>::empty(),
            d@.modified_at =~= Seq::<char>::empty(),
            d@.schema_version == SCHEMA_VERSION@,
    {
        Database {
            hosts: Vec::new(),
            users: Vec::new(),
            user_groups: Vec::new(),
            modified_at: String::new(),
            schema_version: SCHEMA_VERSION.to_owned(),
        }
    }
}

impl Default for Host {
    /// A blank host: no identifiers, no grants, and `sync_todo` set, meaning
    /// its authorized-keys state has not been pushed yet.
    fn default() -> (h: Host)
        ensures
            h@.hostname =~= Seq::<char>::empty(),
            h@.alias is None,
            h@.authorized_users =~= Seq::<Seq<char>>::empty(),
            h@.authorized_user_groups =~= Seq::<Seq<char>>::empty(),
            h@.sync_todo,
    {
        Host {
            hostname: String::new(),
            alias: None,
            authorized_users: Vec::new(),
            authorized_user_groups: Vec::new(),
            sync_todo: true,
        }
    }
}

impl Host {
    /// The text a host shows as: its hostname.
    pub fn display_name(&self) -> (r: String)
        ensures
            r@ == self@.hostname,
    {
        self.hostname.clone()
    }
}

impl User {
    /// The text a user shows as: its identifier.
    pub fn display_name(&self) -> (r: String)
        ensures
            r@ == self@.user_id,
    {
        self.user_id.clone()
    }
}

impl UserGroup {
    /// The text a group shows as: its identifier.
    pub fn display_name(&self) -> (r: String)
        ensures
            r@ == self@.group_id,
    {
        self.group_id.clone()
    }
}

impl Database {
    /// First host, in collection order, whose hostname or alias equals the
    /// query; `None` when no host matches.
    pub fn host_get(&self, hostname_or_alias: &str) -> (r: Option<&Host>)
        ensures
            match r {
                Some(h) => exists|i: int|
                    0 <= i < self@.hosts.len() && #[trigger] self@.hosts[i] == h@
                        && host_matches(h@, hostname_or_alias@) && (forall|j: int|
                        0 <= j < i ==> !host_matches(self@.hosts[j], hostname_or_alias@)),
                None => forall|i: int|
                    0 <= i < self@.hosts.len() ==> !host_matches(
                        #[trigger] self@.hosts[i],
                        hostname_or_alias@,
                    ),
            },
    {
        let mut i: usize = 0;
        while i < self.hosts.len()
            invariant
                i <= self@.hosts.len(),
                self@.hosts.len() == self.hosts@.len(),
                forall|j: int| 0 <= j < i ==> !host_matches(self@.hosts[j], hostname_or_alias@),
            decreases self.hosts@.len() - i,
        {
            let h = &self.hosts[i];
            let hit = str_eq(h.hostname.as_str(), hostname_or_alias) || (match &h.alias {
                Some(a) => str_eq(a.as_str(), hostname_or_alias),
                None => false,
            });
            if hit {
                assert(self@.hosts[i as int] == h@);
                return Some(h);
            }
            assert(self@.hosts[i as int] == h@);
            i = i + 1;
        }
        None
    }

    /// Like `host_get`, but hands the first matching host out for mutation.
    pub fn host_get_mut(&mut self, hostname_or_alias: &str) -> (r: Option<&mut Host>)
        ensures
            match r {
                Some(h) => {
                    &&& exists|i: int|
                        0 <= i < old(self).hosts@.len() && *h == #[trigger] old(self).hosts@[i]
                            && host_matches(old(self).hosts@[i]@, hostname_or_alias@) && (forall|
                            j: int,
                        |
                            0 <= j < i ==> !host_matches(
                                old(self).hosts@[j]@,
                                hostname_or_alias@,
                            )) && final(self).hosts@ == old(self).hosts@.update(i, *final(h))
                    &&& final(self).users == old(self).users
                    &&& final(self).user_groups == old(self).user_groups
                    &&& final(self).modified_at == old(self).modified_at
                    &&& final(self).schema_version == old(self).schema_version
                },
                None => *final(self) == *old(self) && (forall|i: int|
                    0 <= i < old(self).hosts@.len() ==> !host_matches(
                        (#[trigger] old(self).hosts@[i])@,
                        hostname_or_alias@,
                    )),
            },
    {
        let mut i: usize = 0;
        while i < self.hosts.len()
            invariant
                *self == *old(self),
                i <= self.hosts@.len(),
                forall|j: int| 0 <= j < i ==> !host_matches(self.hosts@[j]@, hostname_or_alias@),
            decreases self.hosts@.len() - i,
        {
            let hit = {
                let h = &self.hosts[i];
                str_eq(h.hostname.as_str(), hostname_or_alias) || (match &h.alias {
                    Some(a) => str_eq(a.as_str(), hostname_or_alias),
                    None => false,
                })
            };
            if hit {
                return Some(&mut self.hosts[i]);
            }
            i = i + 1;
        }
        None
    }

    /// First host whose alias equals the query; the hostname is never
    /// consulted.
    pub fn host_get_by_alias(&self, alias: &str) -> (r: Option<&Host>)
        ensures
            match r {
                Some(h) => exists|i: int|
                    0 <= i < self@.hosts.len() && #[trigger] self@.hosts[i] == h@
                        && alias_matches(h@, alias@) && (forall|j: int|
                        0 <= j < i ==> !alias_matches(self@.hosts[j], alias@)),
                None => forall|i: int|
                    0 <= i < self@.hosts.len() ==> !alias_matches(#[trigger] self@.hosts[i], alias@),
            },
    {
        let mut i: usize = 0;
        while i < self.hosts.len()
            invariant
                i <= self@.hosts.len(),
                self@.hosts.len() == self.hosts@.len(),
                forall|j: int| 0 <= j < i ==> !alias_matches(self@.hosts[j], alias@),
            decreases self.hosts@.len() - i,
        {
            let h = &self.hosts[i];
            let hit = match &h.alias {
                Some(a) => str_eq(a.as_str(), alias),
                None => false,
            };
            if hit {
                assert(self@.hosts[i as int] == h@);
                return Some(h);
            }
            assert(self@.hosts[i as int] == h@);
            i = i + 1;
        }
        None
    }

    /// First user whose identifier equals the query exactly.
    pub fn user_get(&self, user_id: &str) -> (r: Option<&User>)
        ensures
            match r {
                Some(u) => exists|i: int|
                    0 <= i < self@.users.len() && #[trigger] self@.users[i] == u@
                        && u@.user_id == user_id@ && (forall|j: int|
                        0 <= j < i ==> self@.users[j].user_id != user_id@),
                None => forall|i: int|
                    0 <= i < self@.users.len() ==> (#[trigger] self@.users[i]).user_id != user_id@,
            },
    {
        let mut i: usize = 0;
        while i < self.users.len()
            invariant
                i <= self@.users.len(),
                self@.users.len() == self.users@.len(),
                forall|j: int| 0 <= j < i ==> self@.users[j].user_id != user_id@,
            decreases self.users@.len() - i,
        {
            let u = &self.users[i];
            if str_eq(u.user_id.as_str(), user_id) {
                assert(self@.users[i as int] == u@);
                return Some(u);
            }
            assert(self@.users[i as int] == u@);
            i = i + 1;
        }
        None
    }

    /// First group whose identifier equals the query exactly.
    pub fn group_get(&self, group_id: &str) -> (r: Option<&UserGroup>)
        ensures
            match r {
                Some(g) => exists|i: int|
                    0 <= i < self@.user_groups.len() && #[trigger] self@.user_groups[i] == g@
                        && g@.group_id == group_id@ && (forall|j: int|
                        0 <= j < i ==> self@.user_groups[j].group_id != group_id@),
                None => forall|i: int|
                    0 <= i < self@.user_groups.len() ==> (#[trigger] self@.user_groups[i]).group_id
                        != group_id@,
            },
    {
        let mut i: usize = 0;
        while i < self.user_groups.len()
            invariant
                i <= self@.user_groups.len(),
                self@.user_groups.len() == self.user_groups@.len(),
                forall|j: int| 0 <= j < i ==> self@.user_groups[j].group_id != group_id@,
            decreases self.user_groups@.len() - i,
        {
            let g = &self.user_groups[i];
            if str_eq(g.group_id.as_str(), group_id) {
                assert(self@.user_groups[i as int] == g@);
                return Some(g);
            }
            assert(self@.user_groups[i as int] == g@);
            i = i + 1;
        }
        None
    }

    /// Like `group_get`, but hands the first matching group out for mutation.
    pub fn group_get_mut(&mut self, group_id: &str) -> (r: Option<&mut UserGroup>)
        ensures
            match r {
                Some(g) => {
                    &&& exists|i: int|
                        0 <= i < old(self).user_groups@.len() && *g == #[trigger] old(
                            self,
                        ).user_groups@[i] && old(self).user_groups@[i]@.group_id == group_id@ && (
                        forall|j: int|
                            0 <= j < i ==> old(self).user_groups@[j]@.group_id != group_id@)
                            && final(self).user_groups@ == old(self).user_groups@.update(
                            i,
                            *final(g),
                        )
                    &&& final(self).hosts == old(self).hosts
                    &&& final(self).users == old(self).users
                    &&& final(self).modified_at == old(self).modified_at
                    &&& final(self).schema_version == old(self).schema_version
                },
                None => *final(self) == *old(self) && (forall|i: int|
                    0 <= i < old(self).user_groups@.len() ==> (#[trigger] old(
                        self,
                    ).user_groups@[i])@.group_id != group_id@),
            },
    {
        let mut i: usize = 0;
        while i < self.user_groups.len()
            invariant
                *self == *old(self),
                i <= self.user_groups@.len(),
                forall|j: int| 0 <= j < i ==> self.user_groups@[j]@.group_id != group_id@,
            decreases self.user_groups@.len() - i,
        {
            let hit = str_eq(self.user_groups[i].group_id.as_str(), group_id);
            if hit {
                return Some(&mut self.user_groups[i]);
            }
            i = i + 1;
        }
        None
    }

    /// A user is directly granted a host when its identifier occurs in the
    /// host's `authorized_users`.
    pub fn is_user_granted(&self, user: &User, host: &Host) -> (r: bool)
        ensures
            r == host@.authorized_users.contains(user@.user_id),
    {
        contains_id(&host.authorized_users, user.user_id.as_str())
    }

    /// A group is granted a host when its identifier occurs in the host's
    /// `authorized_user_groups`.
    pub fn is_group_granted(&self, user_group: &UserGroup, host: &Host) -> (r: bool)
        ensures
            r == host@.authorized_user_groups.contains(user_group@.group_id),
    {
        contains_id(&host.authorized_user_groups, user_group.group_id.as_str())
    }

    /// A user belongs to a group when its identifier occurs in the group's
    /// `members`.
    pub fn is_user_group_member(&self, user: &User, user_group: &UserGroup) -> (r: bool)
        ensures
            r == user_group@.members.contains(user@.user_id),
    {
        contains_id(&user_group.members, user.user_id.as_str())
    }
}

} // verus!
