//! The session store: creation, lookup, lazy expiry, removal.

use simple_docker_manager::auth::SessionStore;

#[test]
fn test_session_lifecycle() {
    let mut store = SessionStore::new(3600).expect("positive timeout is valid");

    // Create session
    let session_id = store.create_session("admin", 1000);
    assert!(!session_id.is_empty());

    // Retrieve session
    let session = store.get_session(&session_id, 1000);
    assert!(session.is_some());
    assert_eq!(session.unwrap().username, "admin");

    // Remove session
    let removed = store.remove_session(&session_id);
    assert!(removed);

    // Verify session is gone
    let session = store.get_session(&session_id, 1000);
    assert!(session.is_none());
}

#[test]
fn test_zero_timeout_rejected() {
    assert!(SessionStore::new(0).is_none());
    assert!(SessionStore::new(1).is_some());
}

#[test]
fn test_token_is_a_uuid_string() {
    let mut store = SessionStore::new(60).unwrap();
    let token = store.create_session("admin", 0);
    assert_eq!(token.chars().count(), 36);
}

#[test]
fn test_create_then_get_returns_username() {
    let mut store = SessionStore::new(60).unwrap();
    let token = store.create_session("operator", 500);
    let session = store.get_session(&token, 500).expect("fresh session is live");
    assert_eq!(session.username, "operator");
    assert_eq!(session.created_at, 500);
    assert_eq!(session.last_accessed, 500);
}

#[test]
fn test_get_unknown_token_returns_nothing() {
    let mut store = SessionStore::new(60).unwrap();
    assert!(store.get_session("no-such-token", 100).is_none());
}

#[test]
fn test_remove_unknown_token_returns_false() {
    let mut store = SessionStore::new(60).unwrap();
    assert!(!store.remove_session("no-such-token"));
    // Idempotent: removing a token twice reports false the second time.
    let token = store.create_session("admin", 0);
    assert!(store.remove_session(&token));
    assert!(!store.remove_session(&token));
}

#[test]
fn test_expired_session_is_deleted_on_get() {
    let mut store = SessionStore::new(10).unwrap();
    let token = store.create_session("admin", 100);
    // 11 seconds later: older than the 10-second timeout.
    assert!(store.get_session(&token, 111).is_none());
    // The get itself deleted it: a removal now reports nothing to remove.
    assert!(!store.remove_session(&token));
}

#[test]
fn test_session_at_exact_timeout_is_still_live() {
    let mut store = SessionStore::new(10).unwrap();
    let token = store.create_session("admin", 100);
    let session = store.get_session(&token, 110);
    assert!(session.is_some());
    assert_eq!(session.unwrap().last_accessed, 110);
}

#[test]
fn test_get_refreshes_last_accessed() {
    let mut store = SessionStore::new(10).unwrap();
    let token = store.create_session("admin", 100);
    // Touch at 108, then the session survives until 118.
    assert!(store.get_session(&token, 108).is_some());
    let session = store.get_session(&token, 117).expect("refreshed session is live");
    assert_eq!(session.last_accessed, 117);
}

#[test]
fn test_remove_then_get_returns_nothing() {
    let mut store = SessionStore::new(60).unwrap();
    let token = store.create_session("admin", 0);
    assert!(store.remove_session(&token));
    assert!(store.get_session(&token, 0).is_none());
}

#[test]
fn test_cleanup_expired_sessions() {
    let mut store = SessionStore::new(10).unwrap();
    let old_token = store.create_session("admin", 100);
    let live_token = store.create_session("admin", 150);
    store.cleanup_expired_sessions(155);
    assert!(store.get_session(&old_token, 155).is_none());
    assert!(store.get_session(&live_token, 155).is_some());
}
