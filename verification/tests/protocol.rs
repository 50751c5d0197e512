use superhq::proto::envelope::{
    classify, decode_kind, DecodeError, MessageKind, Notification, Request, Response, RpcError,
    JSONRPC_VERSION,
};
use superhq::proto::error_code::{INTERNAL_ERROR, INVALID_PARAMS, METHOD_NOT_FOUND};
use superhq::proto::methods::Ack;
use superhq::proto::PROTOCOL_VERSION;
use superhq::remote_client::auth::{compute_proof, decode_device_key};

fn empty_object() -> serde_json::Value {
    serde_json::from_str("{}").unwrap()
}

#[test]
fn rpc_error_constructors() {
    let e = RpcError::method_not_found("foo.bar");
    assert_eq!(e.code, METHOD_NOT_FOUND);
    assert_eq!(e.message, "method not found: foo.bar");
    assert!(e.data.is_none());
    let e = RpcError::invalid_params("bad tab id");
    assert_eq!(e.code, INVALID_PARAMS);
    assert_eq!(e.message, "bad tab id");
    let e = RpcError::internal("boom");
    assert_eq!(e.code, INTERNAL_ERROR);
    let e = RpcError::new(1001, "denied").with_data(serde_json::Value::Bool(true));
    assert_eq!(e.code, 1001);
    assert_eq!(e.message, "denied");
    assert_eq!(e.data, Some(serde_json::Value::Bool(true)));
}

#[test]
fn envelopes_carry_version() {
    let req = Request::new(42, "tabs.list", empty_object());
    assert_eq!(req.jsonrpc, "2.0");
    assert_eq!(req.id, 42);
    assert_eq!(req.method, "tabs.list");
    assert_eq!(req.params, empty_object());
    let resp = Response::success(7, serde_json::Value::Null);
    assert_eq!(resp.jsonrpc, JSONRPC_VERSION);
    assert_eq!(resp.id, 7);
    assert!(resp.result.is_some());
    assert!(resp.error.is_none());
    let resp = Response::error(8, RpcError::method_not_found("x"));
    assert!(resp.result.is_none());
    assert_eq!(resp.error.unwrap().code, METHOD_NOT_FOUND);
    let note = Notification::new("diff.file_changed", empty_object());
    assert_eq!(note.jsonrpc, "2.0");
    assert_eq!(note.method, "diff.file_changed");
}

#[test]
fn classify_kinds() {
    assert!(matches!(classify(true, Some("2.0"), true, true, false, false), Ok(MessageKind::Request)));
    assert!(matches!(classify(true, Some("2.0"), true, false, true, false), Ok(MessageKind::Response)));
    assert!(matches!(classify(true, Some("2.0"), true, false, false, true), Ok(MessageKind::Response)));
    assert!(matches!(classify(true, Some("2.0"), true, false, false, false), Err(DecodeError::Malformed)));
    assert!(matches!(classify(true, Some("2.0"), true, false, true, true), Err(DecodeError::Malformed)));
    assert!(matches!(classify(true, Some("2.0"), false, true, false, false), Ok(MessageKind::Notification)));
    assert!(matches!(classify(true, Some("2.0"), false, false, false, false), Err(DecodeError::Malformed)));
    assert!(matches!(classify(false, Some("2.0"), true, true, false, false), Err(DecodeError::Malformed)));
    assert!(matches!(classify(true, None, true, true, false, false), Err(DecodeError::MissingJsonRpc)));
    match classify(true, Some("1.0"), true, true, false, false) {
        Err(DecodeError::WrongVersion(v)) => assert_eq!(v, "1.0"),
        _ => panic!("expected a wrong version"),
    }
}

#[test]
fn responses_carry_exactly_one_outcome() {
    assert!(matches!(decode_kind(r#"{"jsonrpc":"2.0","id":1}"#), Err(DecodeError::Malformed)));
    assert!(matches!(decode_kind(r#"{"jsonrpc":"2.0","id":1,"result":null}"#), Err(DecodeError::Malformed)));
    assert!(matches!(
        decode_kind(r#"{"jsonrpc":"2.0","id":1,"result":1,"error":{"code":1,"message":"m"}}"#),
        Err(DecodeError::Malformed)
    ));
    assert!(matches!(decode_kind(r#"{"jsonrpc":"2.0","id":1,"result":null,"error":{"code":1,"message":"m"}}"#), Ok((MessageKind::Response, _))));
    assert!(matches!(decode_kind(r#"{"jsonrpc":"2.0","id":1,"result":{}}"#), Ok((MessageKind::Response, _))));
}

#[test]
fn rejects_wrong_version() {
    let wire = r#"{"jsonrpc":"1.0","id":1,"method":"foo","params":{}}"#;
    assert!(matches!(decode_kind(wire), Err(DecodeError::WrongVersion(_))));
}

#[test]
fn rejects_missing_version() {
    let wire = r#"{"id":1,"method":"foo","params":{}}"#;
    assert!(matches!(decode_kind(wire), Err(DecodeError::MissingJsonRpc)));
}

#[test]
fn rejects_malformed() {
    let wire = r#"{"jsonrpc":"2.0"}"#;
    assert!(matches!(decode_kind(wire), Err(DecodeError::Malformed)));
}

#[test]
fn decode_kind_of_each_message() {
    let r = decode_kind(r#"{"jsonrpc":"2.0","id":1,"method":"foo"}"#);
    assert!(matches!(r, Ok((MessageKind::Request, _))));
    let r = decode_kind(r#"{"jsonrpc":"2.0","id":1,"result":[]}"#);
    assert!(matches!(r, Ok((MessageKind::Response, _))));
    let r = decode_kind(r#"{"jsonrpc":"2.0","method":"tabs.added","params":{}}"#);
    assert!(matches!(r, Ok((MessageKind::Notification, _))));
    assert!(matches!(decode_kind("not json"), Err(DecodeError::Json(_))));
    assert!(matches!(decode_kind("[1,2]"), Err(DecodeError::Malformed)));
    assert!(matches!(decode_kind(r#"{"jsonrpc":2,"id":1}"#), Err(DecodeError::MissingJsonRpc)));
}

#[test]
fn ack_is_ok() {
    assert!(Ack::ok().ok);
    assert!(Ack::default().ok);
    assert_eq!(PROTOCOL_VERSION, 1);
}

#[test]
fn proof_matches_hmac_of_transcript() {
    let key: Vec<u8> = (0u8..32).collect();
    let nonce = [0xaau8; 32];
    let proof = compute_proof(&key, "node123", "dev1", &nonce).unwrap();
    assert_eq!(proof, "0ucHeyIyEplVRt+b+GMnDoQSWkhbkU5Tp7OFBztQ26k=");
}

#[test]
fn proof_depends_on_every_input() {
    let key: Vec<u8> = (0u8..32).collect();
    let nonce = [0xaau8; 32];
    let base = compute_proof(&key, "node123", "dev1", &nonce).unwrap();
    assert_ne!(base, compute_proof(&key, "node124", "dev1", &nonce).unwrap());
    assert_ne!(base, compute_proof(&key, "node123", "dev2", &nonce).unwrap());
    assert_ne!(base, compute_proof(&key, "node123", "dev1", &[0xabu8; 32]).unwrap());
    let other: Vec<u8> = (1u8..33).collect();
    assert_ne!(base, compute_proof(&other, "node123", "dev1", &nonce).unwrap());
}

#[test]
fn proof_refuses_short_key() {
    assert_eq!(compute_proof(&[1, 2, 3], "h", "d", &[0]), Err("device key must be 32 bytes"));
    assert_eq!(compute_proof(&[0u8; 33], "h", "d", &[0]), Err("device key must be 32 bytes"));
}

#[test]
fn device_key_decodes_from_base64() {
    let key = decode_device_key("AAECAwQFBgcICQoLDA0ODxAREhMUFRYXGBkaGxwdHh8=").unwrap();
    let expected: Vec<u8> = (0u8..32).collect();
    assert_eq!(key, expected);
    assert_eq!(decode_device_key("not base64!"), Err("invalid base64 device key"));
}
