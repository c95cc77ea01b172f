use replikv::kv::{lookup_latest, KVStore, KeyValue};

fn kv(k: &str, v: &str) -> KeyValue {
    KeyValue { key: k.to_string(), value: v.to_string() }
}

#[test]
fn store_starts_empty() {
    let store = KVStore::new();
    assert!(store.get("foo").is_none());
}

#[test]
fn store_insert_then_get() {
    let mut store = KVStore::new();
    store.insert("foo".to_string(), "bar".to_string());
    assert_eq!(store.get("foo").unwrap(), "bar");
    assert!(store.get("baz").is_none());
}

#[test]
fn store_overwrite_takes_last_value() {
    let mut store = KVStore::new();
    store.insert("k".to_string(), "v1".to_string());
    store.insert("k".to_string(), "v2".to_string());
    assert_eq!(store.get("k").unwrap(), "v2");
}

#[test]
fn store_empty_value_keeps_key() {
    let mut store = KVStore::new();
    store.insert("foo".to_string(), "bar".to_string());
    store.insert("foo".to_string(), String::new());
    assert_eq!(store.get("foo").unwrap(), "");
}

#[test]
fn store_apply_batch_last_write_wins() {
    let mut store = KVStore::new();
    let batch = vec![kv("a", "1"), kv("b", "2"), kv("a", "3")];
    store.apply(&batch);
    assert_eq!(store.get("a").unwrap(), "3");
    assert_eq!(store.get("b").unwrap(), "2");
}

#[test]
fn store_entries_one_per_key() {
    let mut store = KVStore::new();
    store.insert("a".to_string(), "1".to_string());
    store.insert("b".to_string(), "2".to_string());
    store.insert("a".to_string(), "3".to_string());
    let entries = store.entries();
    assert_eq!(entries.len(), 2);
    for e in &entries {
        match e.key.as_str() {
            "a" => assert_eq!(e.value, "3"),
            "b" => assert_eq!(e.value, "2"),
            other => panic!("unexpected key {}", other),
        }
    }
}

#[test]
fn lookup_latest_finds_most_recent() {
    let log = vec![kv("x", "1"), kv("y", "2"), kv("x", "3")];
    assert_eq!(lookup_latest(&log, "x"), "3");
    assert_eq!(lookup_latest(&log, "y"), "2");
}

#[test]
fn lookup_latest_missing_key_is_empty() {
    let log = vec![kv("x", "1")];
    assert_eq!(lookup_latest(&log, "z"), "");
    let empty: Vec<KeyValue> = vec![];
    assert_eq!(lookup_latest(&empty, "x"), "");
}
