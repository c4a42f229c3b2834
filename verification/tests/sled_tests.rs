use kvs::error::KvsError;
use kvs::{KvsEngine, SledKvsEngine};

fn open_in_temp_dir(dir: &tempfile::TempDir) -> SledKvsEngine {
    let path = dir.path().to_str().expect("utf-8 path");
    SledKvsEngine::open(path).expect("open sled engine")
}

#[test]
fn sled_set_then_get() {
    let dir = tempfile::TempDir::new().unwrap();
    let mut engine = open_in_temp_dir(&dir);
    engine.set("k".to_string(), "v".to_string()).unwrap();
    assert_eq!(engine.get("k".to_string()).unwrap(), Some("v".to_string()));
}

#[test]
fn sled_overwrite() {
    let dir = tempfile::TempDir::new().unwrap();
    let mut engine = open_in_temp_dir(&dir);
    engine.set("k".to_string(), "v1".to_string()).unwrap();
    engine.set("k".to_string(), "v2".to_string()).unwrap();
    assert_eq!(engine.get("k".to_string()).unwrap(), Some("v2".to_string()));
}

#[test]
fn sled_get_missing() {
    let dir = tempfile::TempDir::new().unwrap();
    let engine = open_in_temp_dir(&dir);
    assert_eq!(engine.get("missing".to_string()).unwrap(), None);
}

#[test]
fn sled_remove() {
    let dir = tempfile::TempDir::new().unwrap();
    let mut engine = open_in_temp_dir(&dir);
    engine.set("k".to_string(), "v".to_string()).unwrap();
    engine.remove("k".to_string()).unwrap();
    assert_eq!(engine.get("k".to_string()).unwrap(), None);
    match engine.remove("k".to_string()) {
        Err(KvsError::KeyNotFound) => {},
        other => panic!("expected KeyNotFound, got {:?}", other),
    }
}

#[test]
fn sled_reopen_keeps_state() {
    let dir = tempfile::TempDir::new().unwrap();
    {
        let mut engine = open_in_temp_dir(&dir);
        engine.set("k".to_string(), "v".to_string()).unwrap();
    }
    let engine = open_in_temp_dir(&dir);
    assert_eq!(engine.get("k".to_string()).unwrap(), Some("v".to_string()));
}

#[test]
fn sled_open_failure_is_io() {
    let file = tempfile::NamedTempFile::new().unwrap();
    let path = file.path().to_str().expect("utf-8 path");
    match SledKvsEngine::open(path) {
        Err(KvsError::Io(_)) => {},
        Err(other) => panic!("expected Io, got {:?}", other),
        Ok(_) => panic!("expected Io, got an engine"),
    }
}
