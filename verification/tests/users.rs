use gatekeeper::auth::users::{
    add_user, add_user_hashed, authenticate, constant_time_eq, hash_password, init_user_store,
    list_users, reload_users, remove_user,
};
use gatekeeper::config::UserConfig;

#[test]
fn constant_time_eq_matches_only_identical_bytes() {
    assert!(constant_time_eq(b"correct horse", b"correct horse"));
    assert!(!constant_time_eq(b"correct horse", b"correct horsa"));
    assert!(!constant_time_eq(b"short", b"longer value"));
    assert!(constant_time_eq(b"", b""));
}

#[test]
fn added_user_can_log_in() {
    let mut store = init_user_store(&None);
    assert!(store.is_empty());
    add_user(&mut store, "alice", "s3cret", "operator").unwrap();
    assert_eq!(authenticate(&store, "alice", "s3cret"), Some("operator".to_string()));
    assert_eq!(authenticate(&store, "alice", "wrong"), None);
    assert_eq!(authenticate(&store, "bob", "s3cret"), None);
}

#[test]
fn duplicate_user_is_refused() {
    let mut store = init_user_store(&None);
    add_user(&mut store, "alice", "pw", "admin").unwrap();
    let err = add_user(&mut store, "alice", "pw2", "viewer").unwrap_err();
    assert_eq!(err, "user 'alice' already exists");
    assert_eq!(authenticate(&store, "alice", "pw"), Some("admin".to_string()));
}

#[test]
fn removed_user_cannot_log_in() {
    let mut store = init_user_store(&None);
    add_user(&mut store, "alice", "pw", "admin").unwrap();
    remove_user(&mut store, "alice").unwrap();
    assert_eq!(authenticate(&store, "alice", "pw"), None);
    assert_eq!(remove_user(&mut store, "alice").unwrap_err(), "user 'alice' not found");
}

#[test]
fn hash_failure_is_reported_unchanged() {
    let mut store = init_user_store(&None);
    let r = add_user_hashed(&mut store, "x", Err("boom".to_string()), "admin");
    assert_eq!(r, Err("boom".to_string()));
    assert!(store.is_empty());
}

#[test]
fn hashes_verify_and_differ_by_salt() {
    let a = hash_password("pw").unwrap();
    let b = hash_password("pw").unwrap();
    assert!(a.starts_with("$argon2"));
    assert_ne!(a, b);
}

#[test]
fn config_users_later_entries_win_and_reload_replaces() {
    let h = hash_password("pw").unwrap();
    let users = Some(vec![
        UserConfig { username: "a".into(), password_hash: h.clone(), role: "viewer".into() },
        UserConfig { username: "a".into(), password_hash: h.clone(), role: "admin".into() },
        UserConfig { username: "b".into(), password_hash: "not a hash".into(), role: "operator".into() },
    ]);
    let mut store = init_user_store(&users);
    assert_eq!(authenticate(&store, "a", "pw"), Some("admin".to_string()));
    assert_eq!(authenticate(&store, "b", "pw"), None);
    let mut listed: Vec<(String, String)> =
        list_users(&store).into_iter().map(|u| (u.username, u.role)).collect();
    listed.sort();
    assert_eq!(
        listed,
        vec![("a".to_string(), "admin".to_string()), ("b".to_string(), "operator".to_string())]
    );
    reload_users(&mut store, &None);
    assert!(store.is_empty());
    assert!(list_users(&store).is_empty());
}
