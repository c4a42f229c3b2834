use kvs::codec::{encode_command, encode_response, parse_command_at, parse_response_at};
use kvs::util::{Command, Response};

fn chars(s: &str) -> Vec<char> {
    s.chars().collect()
}

fn text(v: &[char]) -> String {
    v.iter().collect()
}

#[test]
fn encode_set_shape() {
    let cmd = Command::Put { key: "k".to_string(), value: "v".to_string() };
    assert_eq!(text(&encode_command(&cmd)), "{\"Set\":{\"key\":\"k\",\"value\":\"v\"}}");
}

#[test]
fn encode_get_shape() {
    let cmd = Command::Get { key: "k".to_string() };
    assert_eq!(text(&encode_command(&cmd)), "{\"Get\":{\"key\":\"k\"}}");
}

#[test]
fn encode_rm_shape() {
    let cmd = Command::Rm { key: "k".to_string() };
    assert_eq!(text(&encode_command(&cmd)), "{\"Rm\":{\"key\":\"k\"}}");
}

#[test]
fn encode_response_shape() {
    let resp = Response { res: true, info: "value".to_string() };
    assert_eq!(text(&encode_response(&resp)), "{\"res\":true,\"info\":\"value\"}");
    let resp = Response { res: false, info: "Key not found".to_string() };
    assert_eq!(text(&encode_response(&resp)), "{\"res\":false,\"info\":\"Key not found\"}");
}

#[test]
fn command_round_trip_plain() {
    let cases = vec![
        Command::Put { key: "alpha".to_string(), value: "beta".to_string() },
        Command::Get { key: "alpha".to_string() },
        Command::Rm { key: "alpha".to_string() },
        Command::Put { key: String::new(), value: String::new() },
    ];
    for cmd in cases {
        let encoded = encode_command(&cmd);
        let (back, end) = parse_command_at(&encoded, 0).expect("round trip");
        assert_eq!(back, cmd);
        assert_eq!(end, encoded.len());
    }
}

#[test]
fn command_round_trip_escaped() {
    let cases = vec![
        Command::Put { key: "a\"b".to_string(), value: "c\\d".to_string() },
        Command::Put { key: "\\\"".to_string(), value: "\"\"\\\\".to_string() },
        Command::Put { key: "{\"Set\":".to_string(), value: "},\"value\":".to_string() },
        Command::Rm { key: "line\nbreak and ünïcödé".to_string() },
    ];
    for cmd in cases {
        let encoded = encode_command(&cmd);
        let (back, end) = parse_command_at(&encoded, 0).expect("round trip");
        assert_eq!(back, cmd);
        assert_eq!(end, encoded.len());
    }
}

#[test]
fn response_round_trip() {
    let cases = vec![
        Response { res: true, info: String::new() },
        Response { res: false, info: "IO error: boom".to_string() },
        Response { res: true, info: "quo\"te\\".to_string() },
    ];
    for resp in cases {
        let encoded = encode_response(&resp);
        let (back, end) = parse_response_at(&encoded, 0).expect("round trip");
        assert_eq!(back, resp);
        assert_eq!(end, encoded.len());
    }
}

#[test]
fn parse_rejects_malformed() {
    for bad in [
        "",
        "{",
        "{\"Set\":{\"key\":\"k\"}}",
        "{\"Put\":{\"key\":\"k\"}}",
        "{\"Set\":{\"key\":\"k\",\"value\":\"v\"}",
        "{\"Get\":{\"key\":\"k\"} }",
        "{\"Get\":{\"key\":k}}",
        "{\"Rm\":{\"key\":\"k\\x\"}}",
        "{\"Rm\":{\"key\":\"k}}",
    ] {
        assert!(parse_command_at(&chars(bad), 0).is_none(), "accepted {:?}", bad);
    }
    assert!(parse_response_at(&chars("{\"res\":maybe,\"info\":\"\"}"), 0).is_none());
}

#[test]
fn parse_concatenated_records() {
    let a = Command::Put { key: "k1".to_string(), value: "v1".to_string() };
    let b = Command::Rm { key: "k1".to_string() };
    let mut log = encode_command(&a);
    log.extend(encode_command(&b));
    let (back_a, mid) = parse_command_at(&log, 0).expect("first record");
    assert_eq!(back_a, a);
    let (back_b, end) = parse_command_at(&log, mid).expect("second record");
    assert_eq!(back_b, b);
    assert_eq!(end, log.len());
}
