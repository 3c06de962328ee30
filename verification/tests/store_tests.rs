use accessdb::store::{Database, Host, User, UserGroup};

fn host(hostname: &str, alias: Option<&str>) -> Host {
    Host {
        hostname: hostname.to_string(),
        alias: alias.map(|a| a.to_string()),
        authorized_users: Vec::new(),
        authorized_user_groups: Vec::new(),
        sync_todo: true,
    }
}

fn user(id: &str, key: &str) -> User {
    User { user_id: id.to_string(), public_key: key.to_string() }
}

fn group(id: &str, members: &[&str]) -> UserGroup {
    UserGroup {
        group_id: id.to_string(),
        members: members.iter().map(|m| m.to_string()).collect(),
    }
}

#[test]
fn default_database_is_empty_with_current_schema() {
    let db = Database::default();
    assert_eq!(db.hosts.len(), 0);
    assert_eq!(db.users.len(), 0);
    assert_eq!(db.user_groups.len(), 0);
    assert_eq!(db.modified_at, "");
    assert_eq!(db.schema_version, "0.1.0");
}

#[test]
fn default_host_has_sync_todo_set() {
    let h = Host::default();
    assert_eq!(h.hostname, "");
    assert!(h.alias.is_none());
    assert!(h.authorized_users.is_empty());
    assert!(h.authorized_user_groups.is_empty());
    assert!(h.sync_todo);
}

#[test]
fn host_get_matches_hostname_and_alias() {
    let mut db = Database::default();
    db.hosts.push(host("web1", Some("w1")));
    db.hosts.push(host("db1", None));
    assert_eq!(db.host_get("web1").unwrap().hostname, "web1");
    assert_eq!(db.host_get("w1").unwrap().hostname, "web1");
    assert_eq!(db.host_get("db1").unwrap().hostname, "db1");
    assert!(db.host_get("mail").is_none());
}

#[test]
fn host_get_prefers_first_inserted_on_duplicate_keyspace() {
    // A hostname "a" and another host's alias "a": the first in collection
    // order wins deterministically.
    let mut db = Database::default();
    db.hosts.push(host("a", None));
    db.hosts.push(host("other", Some("a")));
    let found = db.host_get("a").unwrap();
    assert_eq!(found.hostname, "a");

    let mut db2 = Database::default();
    db2.hosts.push(host("other", Some("a")));
    db2.hosts.push(host("a", None));
    let found2 = db2.host_get("a").unwrap();
    assert_eq!(found2.hostname, "other");
}

#[test]
fn host_get_by_alias_never_matches_hostname() {
    let mut db = Database::default();
    db.hosts.push(host("x", None));
    assert!(db.host_get_by_alias("x").is_none());
    db.hosts.push(host("y", Some("x")));
    assert_eq!(db.host_get_by_alias("x").unwrap().hostname, "y");
}

#[test]
fn host_get_mut_allows_in_place_update() {
    let mut db = Database::default();
    db.hosts.push(host("web1", Some("w1")));
    {
        let h = db.host_get_mut("w1").unwrap();
        h.sync_todo = false;
    }
    assert!(!db.hosts[0].sync_todo);
    assert!(db.host_get_mut("absent").is_none());
}

#[test]
fn user_get_is_exact() {
    let mut db = Database::default();
    db.users.push(user("alice", "ssh-ed25519 AAAA"));
    assert_eq!(db.user_get("alice").unwrap().public_key, "ssh-ed25519 AAAA");
    assert!(db.user_get("alic").is_none());
    assert!(db.user_get("alicea").is_none());
}

#[test]
fn group_get_and_group_get_mut() {
    let mut db = Database::default();
    db.user_groups.push(group("admins", &["alice"]));
    assert_eq!(db.group_get("admins").unwrap().members, vec!["alice".to_string()]);
    assert!(db.group_get("ops").is_none());
    {
        let g = db.group_get_mut("admins").unwrap();
        g.members.push("bob".to_string());
    }
    assert_eq!(db.user_groups[0].members.len(), 2);
    assert!(db.group_get_mut("ops").is_none());
}

#[test]
fn is_user_granted_checks_authorized_users() {
    let db = Database::default();
    let mut h = host("web1", None);
    h.authorized_users.push("u1".to_string());
    let u1 = user("u1", "k1");
    let u2 = user("u2", "k2");
    assert!(db.is_user_granted(&u1, &h));
    assert!(!db.is_user_granted(&u2, &h));
}

#[test]
fn is_group_granted_checks_authorized_user_groups() {
    let db = Database::default();
    let mut h = host("web1", None);
    h.authorized_user_groups.push("g1".to_string());
    let g1 = group("g1", &[]);
    let g2 = group("g2", &[]);
    assert!(db.is_group_granted(&g1, &h));
    assert!(!db.is_group_granted(&g2, &h));
}

#[test]
fn is_user_group_member_checks_members() {
    let db = Database::default();
    let g = group("admins", &["u1"]);
    let u1 = user("u1", "k1");
    let u2 = user("u2", "k2");
    assert!(db.is_user_group_member(&u1, &g));
    assert!(!db.is_user_group_member(&u2, &g));
}

#[test]
fn display_names() {
    assert_eq!(host("web1", None).display_name(), "web1");
    assert_eq!(user("alice", "k").display_name(), "alice");
    assert_eq!(group("admins", &[]).display_name(), "admins");
}

#[test]
fn group_derived_authorization_scenario() {
    // An empty store, one host granted to the "admins" group, one user who
    // is a member of that group: the user is effectively authorized for the
    // host although never directly granted.
    let mut db = Database::default();
    let mut web1 = host("web1", Some("w1"));
    web1.authorized_user_groups.push("admins".to_string());
    db.hosts.push(web1);
    db.users.push(user("alice", "ssh-ed25519 AAAA..."));
    db.user_groups.push(group("admins", &["alice"]));

    let h = db.host_get("web1").unwrap();
    let alice = db.user_get("alice").unwrap();
    let admins = db.group_get("admins").unwrap();
    assert!(db.is_user_group_member(alice, admins));
    assert!(db.is_group_granted(admins, h));
    assert!(!db.is_user_granted(alice, h));

    // Compose the predicates as a caller would: direct grant, or membership
    // in some granted group.
    let directly = db.is_user_granted(alice, h);
    let via_group = db
        .user_groups
        .iter()
        .any(|g| db.is_user_group_member(alice, g) && db.is_group_granted(g, h));
    assert!(directly || via_group);
}
