use kvs::codec::parse_command_at;
use kvs::error::KvsError;
use kvs::KvStore;

fn record_count(log: &str) -> usize {
    let chars: Vec<char> = log.chars().collect();
    let mut count = 0;
    let mut pos = 0;
    while pos < chars.len() {
        let (_, end) = parse_command_at(&chars, pos).expect("well-formed log");
        pos = end;
        count += 1;
    }
    count
}

#[test]
fn set_then_get() {
    let mut store = KvStore::new();
    store.set("k".to_string(), "v".to_string()).unwrap();
    assert_eq!(store.get("k".to_string()).unwrap(), Some("v".to_string()));
}

#[test]
fn overwrite_then_get() {
    let mut store = KvStore::new();
    store.set("k".to_string(), "v1".to_string()).unwrap();
    store.set("k".to_string(), "v2".to_string()).unwrap();
    assert_eq!(store.get("k".to_string()).unwrap(), Some("v2".to_string()));
}

#[test]
fn get_missing_is_none() {
    let store = KvStore::new();
    assert_eq!(store.get("missing".to_string()).unwrap(), None);
}

#[test]
fn remove_then_get_then_remove_again() {
    let mut store = KvStore::new();
    store.set("k".to_string(), "v".to_string()).unwrap();
    store.remove("k".to_string()).unwrap();
    assert_eq!(store.get("k".to_string()).unwrap(), None);
    match store.remove("k".to_string()) {
        Err(KvsError::KeyNotFound) => {},
        other => panic!("expected KeyNotFound, got {:?}", other),
    }
}

#[test]
fn remove_missing_is_key_not_found() {
    let mut store = KvStore::new();
    match store.remove("missing".to_string()) {
        Err(KvsError::KeyNotFound) => {},
        other => panic!("expected KeyNotFound, got {:?}", other),
    }
}

#[test]
fn reopen_keeps_state() {
    let mut store = KvStore::new();
    store.set("a".to_string(), "1".to_string()).unwrap();
    store.set("b".to_string(), "2".to_string()).unwrap();
    store.set("a".to_string(), "3".to_string()).unwrap();
    store.remove("b".to_string()).unwrap();
    let log = store.log_string();
    let reopened = KvStore::open_from_log(&log).unwrap();
    assert_eq!(reopened.get("a".to_string()).unwrap(), Some("3".to_string()));
    assert_eq!(reopened.get("b".to_string()).unwrap(), None);
}

#[test]
fn reopen_rejects_corrupt_log() {
    let mut store = KvStore::new();
    store.set("a".to_string(), "1".to_string()).unwrap();
    let mut log = store.log_string();
    log.truncate(log.len() - 2);
    match KvStore::open_from_log(&log) {
        Err(KvsError::Sered(_)) => {},
        Err(other) => panic!("expected Sered, got {:?}", other),
        Ok(_) => panic!("expected Sered, got a store"),
    }
}

#[test]
fn compaction_leaves_state_and_one_record_per_key() {
    let mut store = KvStore::new();
    store.set("a".to_string(), "1".to_string()).unwrap();
    store.set("a".to_string(), "2".to_string()).unwrap();
    store.set("b".to_string(), "9".to_string()).unwrap();
    store.set("c".to_string(), "8".to_string()).unwrap();
    store.remove("c".to_string()).unwrap();
    assert_eq!(record_count(&store.log_string()), 5);
    store.compact();
    let log = store.log_string();
    assert_eq!(record_count(&log), 2);
    assert!(!log.contains("\"Rm\""));
    assert_eq!(store.get("a".to_string()).unwrap(), Some("2".to_string()));
    assert_eq!(store.get("b".to_string()).unwrap(), Some("9".to_string()));
    assert_eq!(store.get("c".to_string()).unwrap(), None);
}

#[test]
fn many_writes_stay_bounded_and_persist() {
    let rounds = 200;
    let distinct = 100;
    let mut store = KvStore::new();
    for round in 0..rounds {
        for k in 0..distinct {
            let key = format!("key{}", k);
            let value = format!("value{}-{}", k, round);
            store.set(key, value).unwrap();
        }
    }
    // 20000 mutations with a compaction interval of 10000: the last
    // mutation triggered a compaction, so one record per live key remains.
    let log = store.log_string();
    assert_eq!(record_count(&log), distinct);
    let reopened = KvStore::open_from_log(&log).unwrap();
    for k in 0..distinct {
        let key = format!("key{}", k);
        let expected = format!("value{}-{}", k, rounds - 1);
        assert_eq!(reopened.get(key).unwrap(), Some(expected));
    }
}

#[test]
fn empty_key_and_value_round_trip_through_the_store() {
    let mut store = KvStore::new();
    store.set(String::new(), String::new()).unwrap();
    store.set("k".to_string(), String::new()).unwrap();
    assert_eq!(store.get(String::new()).unwrap(), Some(String::new()));
    assert_eq!(store.get("k".to_string()).unwrap(), Some(String::new()));
    let reopened = KvStore::open_from_log(&store.log_string()).unwrap();
    assert_eq!(reopened.get(String::new()).unwrap(), Some(String::new()));
}

#[test]
fn tricky_values_survive_the_log() {
    let mut store = KvStore::new();
    let value = "a \"quoted\" value with \\backslashes\\ and\nnewlines, ünïcödé too".to_string();
    let key = "{\"Set\":{\"key\":".to_string();
    store.set(key.clone(), value.clone()).unwrap();
    assert_eq!(store.get(key.clone()).unwrap(), Some(value.clone()));
    let reopened = KvStore::open_from_log(&store.log_string()).unwrap();
    assert_eq!(reopened.get(key).unwrap(), Some(value));
}

#[test]
fn compaction_fires_exactly_at_the_interval() {
    let interval = 10_000;
    let mut store = KvStore::new();
    for i in 0..interval - 1 {
        let value = format!("{}", i);
        store.set("a".to_string(), value).unwrap();
    }
    // One short of the interval: every record is still in the log.
    assert_eq!(record_count(&store.log_string()), interval - 1);
    store.set("b".to_string(), "x".to_string()).unwrap();
    // The interval-filling mutation compacted: one record per live key.
    assert_eq!(record_count(&store.log_string()), 2);
}
