use ferrocache::storage::{normalize_range, MemoryStore, StoreError, Ttl};

#[test]
fn set_get_and_exists_work() {
    let mut store = MemoryStore::new();

    store.set("project".to_string(), b"aerugo-cache".to_vec());

    assert_eq!(
        store.get("project").unwrap(),
        Some(b"aerugo-cache".to_vec())
    );
    assert_eq!(store.exists_keys(&["project".to_string()]), 1);
}

#[test]
fn expire_zero_deletes_key() {
    let mut store = MemoryStore::new();

    store.set("project".to_string(), b"aerugo-cache".to_vec());

    assert!(store.expire("project", 0));
    assert_eq!(store.get("project").unwrap(), None);
    assert_eq!(store.ttl("project"), Ttl::Missing);
}

#[test]
fn expire_at_past_deletes_key() {
    let mut store = MemoryStore::new();

    store.set("project".to_string(), b"aerugo-cache".to_vec());

    assert!(store.expire_at_unix("project", 0));
    assert_eq!(store.get("project").unwrap(), None);
}

#[test]
fn ttl_reports_missing_and_persistent_keys() {
    let mut store = MemoryStore::new();

    assert_eq!(store.ttl("missing"), Ttl::Missing);

    store.set("project".to_string(), b"aerugo-cache".to_vec());

    assert_eq!(store.ttl("project"), Ttl::NoExpiration);
}

#[test]
fn persist_removes_expiration() {
    let mut store = MemoryStore::new();

    store.set("project".to_string(), b"aerugo-cache".to_vec());
    assert!(store.expire("project", 60));
    assert!(store.persist("project"));
    assert_eq!(store.ttl("project"), Ttl::NoExpiration);
}

#[test]
fn list_push_pop_and_range_work() {
    let mut store = MemoryStore::new();

    assert_eq!(
        store
            .rpush("events".to_string(), vec![b"one".to_vec(), b"two".to_vec()])
            .unwrap(),
        2
    );
    assert_eq!(
        store
            .lpush("events".to_string(), vec![b"zero".to_vec()])
            .unwrap(),
        3
    );
    assert_eq!(
        store.lrange("events", 0, -1).unwrap(),
        vec![b"zero".to_vec(), b"one".to_vec(), b"two".to_vec()]
    );
    assert_eq!(store.lpop("events").unwrap(), Some(b"zero".to_vec()));
    assert_eq!(store.rpop("events").unwrap(), Some(b"two".to_vec()));
    assert_eq!(
        store.lrange("events", 0, -1).unwrap(),
        vec![b"one".to_vec()]
    );
}

#[test]
fn list_commands_reject_string_values() {
    let mut store = MemoryStore::new();

    store.set("project".to_string(), b"aerugo-cache".to_vec());

    assert_eq!(
        store
            .lpush("project".to_string(), vec![b"event".to_vec()])
            .unwrap_err(),
        StoreError::WrongType
    );
}

#[test]
fn normalizes_redis_ranges() {
    assert_eq!(normalize_range(3, 0, -1), Some((0, 2)));
    assert_eq!(normalize_range(3, -2, -1), Some((1, 2)));
    assert_eq!(normalize_range(3, 5, 9), None);
    assert_eq!(normalize_range(3, 2, 1), None);
}
