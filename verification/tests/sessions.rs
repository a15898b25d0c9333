use idiomatic::sessions::{Config, SessionId, Store};

const SECOND: u64 = 1_000_000_000;
const LEASE: u64 = 60 * SECOND;

fn store() -> Store {
    Store::new(Config { lease: LEASE })
}

#[test]
fn test_open_sets_expiry_to_now_plus_lease() {
    let mut store = store();
    // t0 is an origin; every instant below is an offset from it.
    let t0 = 5 * SECOND;
    let id = store.open(t0);
    let session = store.get(id).expect("the session was just opened");
    // expiry = t0 + 60s; one second before it the session is live
    assert_eq!(session.expires_at(), t0 + LEASE);
    assert!(!session.is_expired(t0 + 59 * SECOND));
    assert!(session.is_expired(t0 + LEASE));
}

#[test]
fn test_expire_all_removes_only_expired_sessions() {
    let mut store = store();
    let t0 = 5 * SECOND;
    let early = store.open(t0);
    let late = store.open(t0 + 30 * SECOND);
    // at t0 + 60s: early (expires t0 + 60s) is expired, late (expires t0 + 90s) is not
    let removed = store.expire_all(t0 + LEASE);
    assert_eq!(removed, 1, "one of two sessions expired, removed {removed}");
    assert!(store.get(early).is_none());
    assert!(store.get(late).is_some());
}

#[test]
fn ids_count_up_from_one_and_sessions_keep_what_they_were_opened_with() {
    let mut store = store();
    let a = store.open(0);
    let b = store.open(SECOND);
    assert_eq!(a.get(), 1);
    assert_eq!(b.get(), 2);
    let session = store.get(b).unwrap();
    assert_eq!(session.id(), b);
    assert_eq!(session.opened_at(), SECOND);
    assert_eq!(session.expires_at(), SECOND + LEASE);
}

#[test]
fn an_expired_session_stays_gone_and_ids_are_not_reused() {
    let mut store = store();
    let a = store.open(0);
    assert_eq!(store.expire_all(LEASE - 1), 0);
    assert_eq!(store.expire_all(LEASE), 1);
    assert_eq!(store.expire_all(LEASE), 0);
    assert!(store.get(a).is_none());
    let b = store.open(LEASE);
    assert_eq!(b.get(), 2);
    assert!(store.get(SessionId::clone(&a)).is_none());
}

#[test]
fn expire_all_of_an_empty_store_removes_nothing() {
    let mut store = store();
    assert_eq!(store.expire_all(u64::MAX), 0);
}
