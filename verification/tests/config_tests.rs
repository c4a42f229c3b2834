use kvs::config::{encode_config, parse_config_text, resolve_engine};
use kvs::error::KvsError;
use kvs::EngineType;
use kvs::EngineType::{DEFAULT, KVS, SLED};

#[test]
fn resolve_matrix() {
    assert_eq!(resolve_engine(KVS, KVS).unwrap(), KVS);
    assert_eq!(resolve_engine(KVS, DEFAULT).unwrap(), KVS);
    assert_eq!(resolve_engine(DEFAULT, KVS).unwrap(), KVS);
    assert_eq!(resolve_engine(DEFAULT, DEFAULT).unwrap(), KVS);
    assert_eq!(resolve_engine(SLED, SLED).unwrap(), SLED);
    assert_eq!(resolve_engine(SLED, DEFAULT).unwrap(), SLED);
    assert_eq!(resolve_engine(DEFAULT, SLED).unwrap(), SLED);
}

#[test]
fn resolve_mismatch_is_fatal() {
    match resolve_engine(EngineType::KVS, EngineType::SLED) {
        Err(KvsError::UnexpectedConfig) => {},
        other => panic!("expected UnexpectedConfig, got {:?}", other),
    }
    match resolve_engine(EngineType::SLED, EngineType::KVS) {
        Err(KvsError::UnexpectedConfig) => {},
        other => panic!("expected UnexpectedConfig, got {:?}", other),
    }
}

#[test]
fn config_document_shape() {
    assert_eq!(encode_config(EngineType::KVS), "{\"engine_type\":\"kvs\"}");
    assert_eq!(encode_config(EngineType::SLED), "{\"engine_type\":\"sled\"}");
}

#[test]
fn config_round_trip() {
    for e in [EngineType::KVS, EngineType::SLED, EngineType::DEFAULT] {
        assert_eq!(parse_config_text(&encode_config(e)), Some(e));
    }
}

#[test]
fn config_accepts_upper_case_names() {
    assert_eq!(parse_config_text("{\"engine_type\":\"KVS\"}"), Some(EngineType::KVS));
    assert_eq!(parse_config_text("{\"engine_type\":\"SLED\"}"), Some(EngineType::SLED));
}

#[test]
fn config_rejects_malformed_documents() {
    for bad in [
        "",
        "{}",
        "{\"engine_type\":\"kvs\"",
        "{\"engine_type\":\"lmdb\"}",
        "{\"engine_type\":kvs}",
        "{\"engine_type\":\"kvs\"} ",
    ] {
        assert_eq!(parse_config_text(bad), None, "accepted {:?}", bad);
    }
}

#[test]
fn error_messages() {
    assert_eq!(KvsError::KeyNotFound.message(), "Key not found");
    assert_eq!(KvsError::UnexpectedCommandType.message(), "Unexpected command type");
    assert_eq!(KvsError::UnexpectedConfig.message(), "Unexpected config");
    assert_eq!(KvsError::Io("boom".to_string()).message(), "IO error: boom");
    assert_eq!(KvsError::Sered("bad".to_string()).message(), "serialization error: bad");
    assert_eq!(KvsError::StringError("just this".to_string()).message(), "just this");
}
