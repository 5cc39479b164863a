use passkey_demo::session::{Expirable, InMemorySessionStore, InMemorySessionStoreState, SessionError, SessionState};

fn state_with(name: &str, value: &str) -> SessionState {
    let mut s = SessionState::new();
    s.insert(name.to_string(), value.to_string());
    s
}

#[test]
fn load_returns_state_saved_just_before() {
    let mut store = InMemorySessionStore::new();
    let key = store.save(state_with("a", "1"), 10, 100);
    let loaded = store.load(&key, 100).expect("live entry");
    assert_eq!(loaded.get(&"a".to_string()), Some("1".to_string()));
    assert_eq!(loaded.get(&"b".to_string()), None);
}

#[test]
fn saved_keys_are_long_alphanumeric_and_distinct() {
    let mut store = InMemorySessionStore::new();
    let k1 = store.save(SessionState::new(), 10, 0);
    let k2 = store.save(SessionState::new(), 10, 0);
    assert_eq!(k1.chars().count(), 512);
    assert!(k1.chars().all(|c| c.is_ascii_alphanumeric()));
    assert_ne!(k1, k2);
}

#[test]
fn entry_is_absent_once_expiry_is_reached() {
    let mut store = InMemorySessionStore::new();
    let key = store.save(state_with("a", "1"), 5, 100);
    assert!(store.load(&key, 104).is_some());
    assert!(store.load(&key, 105).is_none());
    assert!(store.load(&key, 1000).is_none());
}

#[test]
fn ttl_of_one_unit_is_gone_after_two() {
    let mut store = InMemorySessionStore::new();
    let key = store.save(state_with("a", "1"), 1, 0);
    assert!(store.load(&key, 2).is_none());
}

#[test]
fn unknown_key_is_absent() {
    let store = InMemorySessionStore::new();
    assert!(store.load(&"nope".to_string(), 0).is_none());
}

#[test]
fn update_on_expired_key_recreates_entry() {
    let mut store = InMemorySessionStore::new();
    let key = store.save(state_with("a", "1"), 1, 0);
    assert!(store.load(&key, 5).is_none());
    let same = store.update(key.clone(), state_with("a", "2"), 3, 5);
    assert_eq!(same, key);
    let loaded = store.load(&key, 5).expect("re-created");
    assert_eq!(loaded.get(&"a".to_string()), Some("2".to_string()));
    assert!(store.load(&key, 8).is_none());
}

#[test]
fn update_on_missing_key_creates_entry() {
    let mut store = InMemorySessionStore::new();
    let key = "chosen".to_string();
    store.update(key.clone(), state_with("x", "y"), 2, 0);
    assert_eq!(store.load(&key, 1).unwrap().get(&"x".to_string()), Some("y".to_string()));
}

#[test]
fn update_ttl_extends_live_entry_and_keeps_state() {
    let mut store = InMemorySessionStore::new();
    let key = store.save(state_with("a", "1"), 5, 0);
    assert_eq!(store.update_ttl(&key, 10, 4), Ok(()));
    let loaded = store.load(&key, 13).expect("extended");
    assert_eq!(loaded.get(&"a".to_string()), Some("1".to_string()));
    assert!(store.load(&key, 14).is_none());
}

#[test]
fn update_ttl_on_expired_or_missing_entry_is_not_found() {
    let mut store = InMemorySessionStore::new();
    let key = store.save(state_with("a", "1"), 5, 0);
    assert_eq!(store.update_ttl(&key, 10, 5), Err(SessionError::NotFound));
    assert!(store.load(&key, 5).is_none());
    assert_eq!(store.update_ttl(&"missing".to_string(), 10, 0), Err(SessionError::NotFound));
}

#[test]
fn delete_then_load_is_absent() {
    let mut store = InMemorySessionStore::new();
    let key = store.save(state_with("a", "1"), 5, 0);
    store.delete(&key);
    assert!(store.load(&key, 0).is_none());
}

#[test]
fn delete_of_absent_key_is_harmless() {
    let mut store = InMemorySessionStore::new();
    let key = store.save(state_with("a", "1"), 5, 0);
    store.delete(&"other".to_string());
    store.delete(&"other".to_string());
    assert!(store.load(&key, 0).is_some());
}

#[test]
fn store_state_insert_overwrites_same_key() {
    let mut st = InMemorySessionStoreState::new();
    let key = "k".to_string();
    st.insert(key.clone(), state_with("a", "1"), 0, 5);
    st.insert(key.clone(), state_with("a", "2"), 0, 5);
    assert_eq!(st.get(&key, 1).unwrap().get(&"a".to_string()), Some("2".to_string()));
    st.delete(&key);
    assert!(st.get(&key, 1).is_none());
}

#[test]
fn session_state_fields_insert_replace_remove() {
    let mut s = SessionState::new();
    s.insert("a".to_string(), "1".to_string());
    s.insert("b".to_string(), "2".to_string());
    s.insert("a".to_string(), "3".to_string());
    assert_eq!(s.get(&"a".to_string()), Some("3".to_string()));
    assert_eq!(s.remove(&"a".to_string()), Some("3".to_string()));
    assert_eq!(s.remove(&"a".to_string()), None);
    assert_eq!(s.get(&"b".to_string()), Some("2".to_string()));
    let c = s.copy();
    s.insert("b".to_string(), "9".to_string());
    assert_eq!(c.get(&"b".to_string()), Some("2".to_string()));
}

#[test]
fn expirable_reads_until_expiry() {
    let e = Expirable { value: 7u32, expire: 10 };
    assert_eq!(e.get(9), Some(&7));
    assert_eq!(e.get(10), None);
}

#[test]
fn session_state_pairs_hold_each_field_once() {
    let mut s = SessionState::new();
    s.insert("a".to_string(), "1".to_string());
    s.insert("b".to_string(), "2".to_string());
    s.insert("a".to_string(), "3".to_string());
    let mut pairs = s.into_pairs();
    pairs.sort();
    assert_eq!(pairs, vec![("a".to_string(), "3".to_string()), ("b".to_string(), "2".to_string())]);
}
