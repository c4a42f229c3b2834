use kvs::engines::kvs::SharedKvStore;
use kvs::error::KvsError;
use kvs::KvStore;

#[test]
fn shared_set_get_remove() {
    let shared = SharedKvStore::share(KvStore::new());
    shared.set("k".to_string(), "v".to_string()).unwrap();
    assert_eq!(shared.get("k".to_string()).unwrap(), Some("v".to_string()));
    shared.remove("k".to_string()).unwrap();
    assert_eq!(shared.get("k".to_string()).unwrap(), None);
    match shared.remove("k".to_string()) {
        Err(KvsError::KeyNotFound) => {},
        other => panic!("expected KeyNotFound, got {:?}", other),
    }
}

#[test]
fn shared_serve_request() {
    let shared = SharedKvStore::share(KvStore::new());
    let reply = shared.serve("{\"Set\":{\"key\":\"k\",\"value\":\"v\"}}").unwrap();
    assert_eq!(reply, "{\"res\":true,\"info\":\"\"}");
    let reply = shared.serve("{\"Get\":{\"key\":\"k\"}}").unwrap();
    assert_eq!(reply, "{\"res\":true,\"info\":\"v\"}");
    match shared.serve("not a command") {
        Err(KvsError::Sered(_)) => {},
        other => panic!("expected Sered, got {:?}", other),
    }
}

#[test]
fn concurrent_workers_serialize() {
    let shared = SharedKvStore::share(KvStore::new());
    let workers = 4;
    let rounds = 50;
    crossbeam::scope(|s| {
        for w in 0..workers {
            let shared = &shared;
            s.spawn(move |_| {
                for round in 0..rounds {
                    let key = format!("worker{}", w);
                    let value = format!("round{}", round);
                    shared.set(key.clone(), value).unwrap();
                    // A racing read sees some serialized state: either a
                    // value this worker wrote, since nobody else touches
                    // its key, or nothing before the first write landed.
                    let seen = shared.get(key).unwrap().expect("own key is live");
                    assert!(seen.starts_with("round"));
                }
            });
        }
    })
    .unwrap();
    for w in 0..workers {
        let key = format!("worker{}", w);
        let expected = format!("round{}", rounds - 1);
        assert_eq!(shared.get(key).unwrap(), Some(expected));
    }
}
