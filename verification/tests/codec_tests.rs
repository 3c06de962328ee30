use accessdb::codec::{db_to_json, json_to_db, DbError};
use accessdb::store::{Database, Host, User, UserGroup};

fn sample_db() -> Database {
    let mut db = Database::default();
    db.hosts.push(Host {
        hostname: "web1".to_string(),
        alias: Some("w1".to_string()),
        authorized_users: vec!["alice".to_string(), "bob".to_string()],
        authorized_user_groups: vec!["admins".to_string()],
        sync_todo: true,
    });
    db.hosts.push(Host {
        hostname: "db1".to_string(),
        alias: None,
        authorized_users: Vec::new(),
        authorized_user_groups: Vec::new(),
        sync_todo: false,
    });
    db.users.push(User {
        user_id: "alice".to_string(),
        public_key: "ssh-ed25519 AAAA...".to_string(),
    });
    db.user_groups.push(UserGroup {
        group_id: "admins".to_string(),
        members: vec!["alice".to_string()],
    });
    db
}

fn assert_hosts_eq(a: &Host, b: &Host) {
    assert_eq!(a.hostname, b.hostname);
    assert_eq!(a.alias, b.alias);
    assert_eq!(a.authorized_users, b.authorized_users);
    assert_eq!(a.authorized_user_groups, b.authorized_user_groups);
    assert_eq!(a.sync_todo, b.sync_todo);
}

fn assert_dbs_eq(a: &Database, b: &Database) {
    assert_eq!(a.hosts.len(), b.hosts.len());
    for (x, y) in a.hosts.iter().zip(b.hosts.iter()) {
        assert_hosts_eq(x, y);
    }
    assert_eq!(a.users.len(), b.users.len());
    for (x, y) in a.users.iter().zip(b.users.iter()) {
        assert_eq!(x.user_id, y.user_id);
        assert_eq!(x.public_key, y.public_key);
    }
    assert_eq!(a.user_groups.len(), b.user_groups.len());
    for (x, y) in a.user_groups.iter().zip(b.user_groups.iter()) {
        assert_eq!(x.group_id, y.group_id);
        assert_eq!(x.members, y.members);
    }
    assert_eq!(a.modified_at, b.modified_at);
    assert_eq!(a.schema_version, b.schema_version);
}

#[test]
fn empty_database_renders_exactly() {
    let db = Database::default();
    let text = db_to_json(&db);
    assert_eq!(
        text,
        "{\"hosts\":[],\"users\":[],\"user_groups\":[],\"modified_at\":\"\",\"schema_version\":\"0.1.0\"}"
    );
}

#[test]
fn small_database_renders_exactly() {
    let mut db = Database::default();
    db.modified_at = "t0".to_string();
    db.users.push(User { user_id: "a".to_string(), public_key: "k".to_string() });
    let text = db_to_json(&db);
    assert_eq!(
        text,
        "{\"hosts\":[],\"users\":[{\"user_id\":\"a\",\"public_key\":\"k\"}],\"user_groups\":[],\"modified_at\":\"t0\",\"schema_version\":\"0.1.0\"}"
    );
}

#[test]
fn save_stamps_metadata() {
    let mut db = sample_db();
    db.modified_at = String::new();
    db.schema_version = "0.0.9".to_string();
    let _text = db.save_to_json();
    assert!(!db.modified_at.is_empty());
    assert_eq!(db.schema_version, "0.1.0");
    assert_eq!(db.hosts.len(), 2);
    assert_eq!(db.users.len(), 1);
    assert_eq!(db.user_groups.len(), 1);
}

#[test]
fn save_then_load_round_trips() {
    let mut db = sample_db();
    let text = db.save_to_json();
    let loaded = Database::load_from_json(&text).unwrap();
    // Saving stamped `db` itself, so the loaded store matches it whole,
    // `modified_at` and `schema_version` included.
    assert_dbs_eq(&db, &loaded);
}

#[test]
fn round_trip_keeps_awkward_characters() {
    let mut db = Database::default();
    db.hosts.push(Host {
        hostname: "quote\"back\\slash".to_string(),
        alias: Some("tab\tnew\nline\rdone".to_string()),
        authorized_users: vec!["a,b]c[d{e}".to_string()],
        authorized_user_groups: Vec::new(),
        sync_todo: false,
    });
    let text = db.save_to_json();
    let loaded = Database::load_from_json(&text).unwrap();
    assert_dbs_eq(&db, &loaded);
}

#[test]
fn load_rejects_malformed_text() {
    for bad in [
        "",
        "{",
        "not json at all",
        "{\"hosts\":[],\"users\":[],\"user_groups\":[]}",
        "{\"hosts\":[],\"users\":[],\"user_groups\":[],\"modified_at\":\"\",\"schema_version\":\"0.1.0\"} trailing",
        "{\"hosts\":[{\"hostname\":\"x\"}],\"users\":[],\"user_groups\":[],\"modified_at\":\"\",\"schema_version\":\"0.1.0\"}",
    ] {
        let r = Database::load_from_json(bad);
        assert!(matches!(r, Err(DbError::FormatError)), "accepted: {bad}");
    }
}

#[test]
fn load_reads_rendered_form() {
    let text = "{\"hosts\":[{\"hostname\":\"web1\",\"alias\":null,\"authorized_users\":[\"u1\",\"u2\"],\"authorized_user_groups\":[],\"sync_todo\":false}],\"users\":[],\"user_groups\":[{\"group_id\":\"g\",\"members\":[]}],\"modified_at\":\"m\",\"schema_version\":\"0.1.0\"}";
    let db = json_to_db(text).unwrap();
    assert_eq!(db.hosts.len(), 1);
    assert_eq!(db.hosts[0].hostname, "web1");
    assert!(db.hosts[0].alias.is_none());
    assert_eq!(db.hosts[0].authorized_users, vec!["u1".to_string(), "u2".to_string()]);
    assert!(!db.hosts[0].sync_todo);
    assert_eq!(db.user_groups[0].group_id, "g");
    assert!(db.user_groups[0].members.is_empty());
    assert_eq!(db.modified_at, "m");
    assert_eq!(db.schema_version, "0.1.0");
}

#[test]
fn escaped_strings_are_decoded() {
    let text = "{\"hosts\":[],\"users\":[{\"user_id\":\"a\\\"b\\\\c\",\"public_key\":\"x\\ny\\tz\\rw\"}],\"user_groups\":[],\"modified_at\":\"\",\"schema_version\":\"0.1.0\"}";
    let db = json_to_db(text).unwrap();
    assert_eq!(db.users[0].user_id, "a\"b\\c");
    assert_eq!(db.users[0].public_key, "x\ny\tz\rw");
}

#[test]
fn absent_alias_reads_as_none() {
    let text = "{\"hosts\":[{\"hostname\":\"web1\",\"authorized_users\":[\"u1\"],\"authorized_user_groups\":[],\"sync_todo\":true}],\"users\":[],\"user_groups\":[],\"modified_at\":\"m\",\"schema_version\":\"0.1.0\"}";
    let db = json_to_db(text).unwrap();
    assert_eq!(db.hosts[0].hostname, "web1");
    assert!(db.hosts[0].alias.is_none());
    assert_eq!(db.hosts[0].authorized_users, vec!["u1".to_string()]);
}

#[test]
fn pretty_printed_text_loads() {
    let text = "{\n  \"hosts\": [\n    {\n      \"hostname\": \"web1\",\n      \"alias\": \"w1\",\n      \"authorized_users\": [\n        \"a\",\n        \"b\"\n      ],\n      \"authorized_user_groups\": [],\n      \"sync_todo\": true\n    }\n  ],\n  \"users\": [],\n  \"user_groups\": [\n    {\n      \"group_id\": \"g\",\n      \"members\": [ \"a\" ]\n    }\n  ],\n  \"modified_at\": \"m\",\n  \"schema_version\": \"0.1.0\"\n}\n";
    let db = Database::load_from_json(text).unwrap();
    assert_eq!(db.hosts.len(), 1);
    assert_eq!(db.hosts[0].hostname, "web1");
    assert_eq!(db.hosts[0].alias.as_deref(), Some("w1"));
    assert_eq!(db.hosts[0].authorized_users, vec!["a".to_string(), "b".to_string()]);
    assert_eq!(db.user_groups[0].members, vec!["a".to_string()]);
    assert_eq!(db.schema_version, "0.1.0");
}

#[test]
fn trailing_whitespace_is_tolerated() {
    let text = "{\"hosts\":[],\"users\":[],\"user_groups\":[],\"modified_at\":\"\",\"schema_version\":\"0.1.0\"}\n";
    assert!(Database::load_from_json(text).is_ok());
}

#[test]
fn reordered_fields_are_rejected() {
    let text = "{\"users\":[],\"hosts\":[],\"user_groups\":[],\"modified_at\":\"\",\"schema_version\":\"0.1.0\"}";
    assert!(matches!(Database::load_from_json(text), Err(DbError::FormatError)));
}

#[test]
fn saved_stamp_is_a_utc_timestamp() {
    let mut db = Database::default();
    let _text = db.save_to_json();
    assert!(db.modified_at.ends_with(" UTC"));
    assert!(db.modified_at.len() > 4);
}

#[test]
fn unknown_escape_is_rejected() {
    let text = "{\"hosts\":[],\"users\":[{\"user_id\":\"a\\qb\",\"public_key\":\"k\"}],\"user_groups\":[],\"modified_at\":\"\",\"schema_version\":\"0.1.0\"}";
    assert!(json_to_db(text).is_none());
}
