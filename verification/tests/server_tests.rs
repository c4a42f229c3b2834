use kvs::client::{parse_response_text, request_text, response_outcome};
use kvs::error::KvsError;
use kvs::server::{ack_response, get_response, serve_request};
use kvs::thread_pool::{NaiveThreadPool, ThreadPool};
use kvs::util::Command;
use kvs::{KvStore, Server};

fn exchange(server: &mut Server<KvStore, NaiveThreadPool>, cmd: Command) -> Result<String, KvsError> {
    let request = request_text(&cmd);
    let reply = server.serve(&request).expect("one whole request");
    let resp = parse_response_text(&reply).expect("one whole response");
    response_outcome(resp)
}

fn new_server() -> Server<KvStore, NaiveThreadPool> {
    let engine = KvStore::new();
    let pool = NaiveThreadPool::new(4).unwrap();
    Server::new(engine, pool).unwrap()
}

#[test]
fn set_then_get_over_the_wire() {
    let mut server = new_server();
    let set = Command::Put { key: "k".to_string(), value: "v".to_string() };
    assert_eq!(exchange(&mut server, set).unwrap(), "");
    let get = Command::Get { key: "k".to_string() };
    assert_eq!(exchange(&mut server, get).unwrap(), "v");
}

#[test]
fn overwrite_over_the_wire() {
    let mut server = new_server();
    let set1 = Command::Put { key: "k".to_string(), value: "v1".to_string() };
    let set2 = Command::Put { key: "k".to_string(), value: "v2".to_string() };
    exchange(&mut server, set1).unwrap();
    exchange(&mut server, set2).unwrap();
    let get = Command::Get { key: "k".to_string() };
    assert_eq!(exchange(&mut server, get).unwrap(), "v2");
}

#[test]
fn get_missing_yields_sentinel() {
    let mut server = new_server();
    let get = Command::Get { key: "missing".to_string() };
    assert_eq!(exchange(&mut server, get).unwrap(), "Key not found");
}

#[test]
fn remove_missing_yields_error_outcome() {
    let mut server = new_server();
    let rm = Command::Rm { key: "missing".to_string() };
    match exchange(&mut server, rm) {
        Err(KvsError::StringError(m)) => assert_eq!(m, "Key not found"),
        other => panic!("expected StringError, got {:?}", other),
    }
}

#[test]
fn remove_present_then_get() {
    let mut server = new_server();
    let set = Command::Put { key: "k".to_string(), value: "v".to_string() };
    exchange(&mut server, set).unwrap();
    let rm = Command::Rm { key: "k".to_string() };
    assert_eq!(exchange(&mut server, rm).unwrap(), "");
    let get = Command::Get { key: "k".to_string() };
    assert_eq!(exchange(&mut server, get).unwrap(), "Key not found");
}

#[test]
fn malformed_request_is_refused() {
    let mut engine = KvStore::new();
    match serve_request(&mut engine, "{\"Nope\":{}}") {
        Err(KvsError::Sered(_)) => {},
        other => panic!("expected Sered, got {:?}", other),
    }
    match serve_request(&mut engine, "{\"Get\":{\"key\":\"k\"}} trailing") {
        Err(KvsError::Sered(_)) => {},
        other => panic!("expected Sered, got {:?}", other),
    }
}

#[test]
fn naive_pool_runs_a_task() {
    let pool = NaiveThreadPool::new(1).unwrap();
    let (tx, rx) = crossbeam::channel::bounded(1);
    pool.spawn(move || {
        tx.send(41 + 1).unwrap();
    });
    assert_eq!(rx.recv().unwrap(), 42);
}

#[test]
fn ack_response_reports_the_outcome() {
    let ok = ack_response(Ok(()));
    assert_eq!(ok, kvs::Response { res: true, info: String::new() });
    let err = ack_response(Err(KvsError::KeyNotFound));
    assert_eq!(err, kvs::Response { res: false, info: "Key not found".to_string() });
}

#[test]
fn get_response_reports_the_outcome() {
    let hit = get_response(Ok(Some("v".to_string())));
    assert_eq!(hit, kvs::Response { res: true, info: "v".to_string() });
    let miss = get_response(Ok(None));
    assert_eq!(miss, kvs::Response { res: true, info: "Key not found".to_string() });
    let err = get_response(Err(KvsError::Io("boom".to_string())));
    assert_eq!(err, kvs::Response { res: false, info: "IO error: boom".to_string() });
}
