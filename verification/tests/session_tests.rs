use wallet_auth::errors::AuthError;
use wallet_auth::session::SessionStore;

#[test]
fn create_session_links_the_address_to_itself() {
    let mut store = SessionStore::new();
    let s = store.create_session_at("addr1".to_string(), 100);
    assert_eq!(s.address, "addr1");
    assert_eq!(s.wallet_addresses, vec!["addr1".to_string()]);
    assert_eq!(s.created_at, 100);
    assert_eq!(s.last_active_at, 100);
}

#[test]
fn create_session_twice_touches_not_duplicates() {
    let mut store = SessionStore::new();
    store.create_session_at("addr1".to_string(), 100);
    let again = store.create_session_at("addr1".to_string(), 250);
    assert_eq!(again.created_at, 100);
    assert_eq!(again.last_active_at, 250);
    assert_eq!(again.wallet_addresses, vec!["addr1".to_string()]);
    let looked = store.get_session("addr1").unwrap();
    assert_eq!(looked.last_active_at, 250);
}

#[test]
fn add_wallet_links_once_and_touches() {
    let mut store = SessionStore::new();
    store.create_session_at("primary".to_string(), 10);
    assert_eq!(store.add_wallet_at("primary", "second".to_string(), 20), Ok(()));
    assert_eq!(store.add_wallet_at("primary", "second".to_string(), 30), Ok(()));
    let s = store.get_session("primary").unwrap();
    assert_eq!(s.wallet_addresses, vec!["primary".to_string(), "second".to_string()]);
    assert_eq!(s.last_active_at, 30);
}

#[test]
fn add_wallet_without_session_is_not_found() {
    let mut store = SessionStore::new();
    assert_eq!(
        store.add_wallet_at("missing", "second".to_string(), 20),
        Err(AuthError::NotFound)
    );
}

#[test]
fn get_session_misses_unknown_addresses() {
    let mut store = SessionStore::new();
    store.create_session_at("known".to_string(), 5);
    assert!(store.get_session("known").is_some());
    assert!(store.get_session("unknown").is_none());
}

#[test]
fn revocation_marks_exactly_the_given_identifier() {
    let mut store = SessionStore::new();
    assert!(!store.is_token_revoked("jti-1"));
    store.revoked_token("jti-1".to_string());
    assert!(store.is_token_revoked("jti-1"));
    assert!(!store.is_token_revoked("jti-2"));
    // revoking again changes nothing
    store.revoked_token("jti-1".to_string());
    assert!(store.is_token_revoked("jti-1"));
    assert!(!store.is_token_revoked("jti-2"));
}

#[test]
fn sweep_drops_idle_sessions_and_keeps_fresh_ones() {
    let mut store = SessionStore::new();
    store.create_session_at("old".to_string(), 0);
    store.create_session_at("fresh".to_string(), 90);
    // at time 100 with tolerance 10: "old" is idle for 100 >= 10, "fresh" for 10 >= 10?
    store.cleanup_expired_at(100, 20);
    assert!(store.get_session("old").is_none());
    assert!(store.get_session("fresh").is_some());
}

#[test]
fn sweep_boundary_is_inclusive() {
    let mut store = SessionStore::new();
    store.create_session_at("edge".to_string(), 80);
    // idle time exactly max_age: removed
    store.cleanup_expired_at(100, 20);
    assert!(store.get_session("edge").is_none());

    let mut store2 = SessionStore::new();
    store2.create_session_at("edge".to_string(), 81);
    store2.cleanup_expired_at(100, 20);
    assert!(store2.get_session("edge").is_some());
}

#[test]
fn sweep_leaves_revocations_alone() {
    let mut store = SessionStore::new();
    store.create_session_at("a".to_string(), 0);
    store.revoked_token("jti".to_string());
    store.cleanup_expired_at(1000, 10);
    assert!(store.is_token_revoked("jti"));
}
