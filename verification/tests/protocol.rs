use fff::codec::{encode_frame, read_frame_sync, ByteReader, IoKind, IpcError};
use fff::protocol::{
    check_protocol_version, error_envelope, looks_like_json, RequestEnvelope, ResponseEnvelope,
    ResponseError, BAD_REQUEST, INTERNAL, MAX_FRAME_LEN, PROTOCOL_MISMATCH, PROTOCOL_VERSION,
};
use fff::verbs;
use serde_json::Value;

fn request_value(req: &RequestEnvelope) -> Value {
    let mut m = serde_json::Map::new();
    m.insert("protocol_version".into(), Value::from(req.protocol_version));
    m.insert("verb".into(), Value::from(req.verb.clone()));
    m.insert("params".into(), req.params.clone());
    Value::Object(m)
}

fn request_from(v: &Value) -> RequestEnvelope {
    RequestEnvelope {
        protocol_version: v["protocol_version"].as_u64().unwrap() as u32,
        verb: v["verb"].as_str().unwrap().to_string(),
        params: v["params"].clone(),
    }
}

fn response_value(resp: &ResponseEnvelope) -> Value {
    let mut m = serde_json::Map::new();
    m.insert("protocol_version".into(), Value::from(resp.protocol_version));
    m.insert("ok".into(), Value::from(resp.ok));
    if let Some(r) = &resp.result {
        m.insert("result".into(), r.clone());
    }
    if let Some(e) = &resp.error {
        let mut em = serde_json::Map::new();
        em.insert("code".into(), Value::from(e.code.clone()));
        em.insert("message".into(), Value::from(e.message.clone()));
        m.insert("error".into(), Value::Object(em));
    }
    Value::Object(m)
}

fn response_from(v: &Value) -> ResponseEnvelope {
    ResponseEnvelope {
        protocol_version: v["protocol_version"].as_u64().unwrap() as u32,
        ok: v["ok"].as_bool().unwrap(),
        result: v.get("result").cloned(),
        error: v.get("error").map(|e| ResponseError {
            code: e["code"].as_str().unwrap().to_string(),
            message: e["message"].as_str().unwrap().to_string(),
            engine_version: None,
            client_version: None,
        }),
    }
}

fn over_the_wire(v: &Value) -> Value {
    let frame = encode_frame(&serde_json::to_vec(v).unwrap());
    let mut reader = ByteReader::new(frame);
    let payload = read_frame_sync(&mut reader).unwrap();
    serde_json::from_slice(&payload).unwrap()
}

#[test]
fn grep_request_envelope_round_trips() {
    let mut params = serde_json::Map::new();
    params.insert("query".into(), Value::from("héllo"));
    let req = RequestEnvelope::new(verbs::GREP, Value::Object(params));

    let rt = request_from(&over_the_wire(&request_value(&req)));
    assert_eq!(rt.protocol_version, PROTOCOL_VERSION);
    assert_eq!(rt.verb, verbs::GREP);
    let query = rt
        .params_as(Ok::<Value, String>(rt.params["query"].clone()))
        .unwrap();
    assert_eq!(query, "héllo");
}

#[test]
fn ok_response_round_trips() {
    let mut result = serde_json::Map::new();
    result.insert("total_files_searched".into(), Value::from(3));
    result.insert("total_files".into(), Value::from(10));
    let resp = ResponseEnvelope::ok(Value::Object(result));
    assert!(resp.ok);

    let rt = response_from(&over_the_wire(&response_value(&resp)));
    assert!(rt.ok);
    assert!(rt.error.is_none());
    assert_eq!(rt.result.unwrap()["total_files"], 10);
}

#[test]
fn err_response_round_trips() {
    let resp = ResponseEnvelope::err(ResponseError {
        code: INTERNAL.to_string(),
        message: "boom".into(),
        engine_version: None,
        client_version: None,
    });
    assert!(!resp.ok);

    let rt = response_from(&over_the_wire(&response_value(&resp)));
    assert!(!rt.ok);
    assert!(rt.result.is_none());
    let err = rt.error.unwrap();
    assert_eq!(err.code, INTERNAL);
    assert_eq!(err.message, "boom");
}

#[test]
fn looks_like_json_table() {
    // JSON first byte (with and without leading whitespace).
    assert!(looks_like_json(b"{\"verb\":\"grep\"}"));
    assert!(looks_like_json(b"  \n\t{}"));
    // Every reachable legacy bincode first ordinal byte 0x00..=0x0A.
    for ordinal in 0u8..=0x0A {
        let frame = [ordinal, 0, 0, 0];
        assert!(
            !looks_like_json(&frame),
            "ordinal {ordinal:#x} must not sniff as JSON"
        );
    }
    // Empty payload is not JSON.
    assert!(!looks_like_json(b""));
}

#[test]
fn sniffing_skips_ascii_whitespace_alone() {
    assert!(looks_like_json(b"\x0c\r{"));
    assert!(!looks_like_json(b"\x0b{"));
    assert!(!looks_like_json(b"   "));
    assert!(!looks_like_json(b"[{"));
}

#[test]
fn over_length_frame_is_rejected_without_allocating() {
    // Declared length one past MAX_FRAME_LEN; no payload bytes follow.
    let declared = MAX_FRAME_LEN + 1;
    let frame = declared.to_le_bytes();
    let mut cursor = ByteReader::new(frame.to_vec());
    match read_frame_sync(&mut cursor) {
        Err(IpcError::FrameTooLarge { len, max }) => {
            assert_eq!(len, declared);
            assert_eq!(max, MAX_FRAME_LEN);
        }
        other => panic!("expected FrameTooLarge, got {other:?}"),
    }
}

#[test]
fn version_mismatch_helper_produces_protocol_mismatch_envelope() {
    let err_env = check_protocol_version(PROTOCOL_VERSION + 1).unwrap_err();
    assert!(!err_env.ok);
    let err = err_env.error.unwrap();
    assert_eq!(err.code, PROTOCOL_MISMATCH);
    assert_eq!(err.engine_version, Some(PROTOCOL_VERSION));
    assert_eq!(err.client_version, Some(PROTOCOL_VERSION + 1));
}

#[test]
fn matching_version_passes() {
    assert!(check_protocol_version(PROTOCOL_VERSION).is_ok());
}

#[test]
fn errors_carry_a_code_and_no_result() {
    let env = error_envelope(BAD_REQUEST, "no".to_string());
    assert_eq!(env.protocol_version, PROTOCOL_VERSION);
    assert!(!env.ok && env.result.is_none());
    let err = env.error.unwrap();
    assert_eq!((err.code.as_str(), err.message.as_str()), (BAD_REQUEST, "no"));
    assert_eq!((err.engine_version, err.client_version), (None, None));

    let env = ResponseEnvelope::ok_or_internal(Err("bad float".into()));
    assert_eq!(env.error.unwrap().code, INTERNAL);
    assert!(ResponseEnvelope::ok_or_internal(Ok(Value::Null)).ok);
}

#[test]
fn bad_parameters_are_refused_by_verb() {
    let env = RequestEnvelope::new("grep", Value::Null);
    let refusal = env
        .params_as(Err::<u32, String>("missing field `query`".into()))
        .unwrap_err();
    let err = refusal.error.unwrap();
    assert_eq!(err.code, BAD_REQUEST);
    assert_eq!(
        err.message,
        "invalid params for verb 'grep': missing field `query`"
    );
}

// ── Frames ──────────────────────────────────────────────────────────────────

#[test]
fn read_frame_sniffs_json_vs_bincode() {
    let env = RequestEnvelope::new(verbs::HEALTH, Value::Object(serde_json::Map::new()));
    let bytes = serde_json::to_vec(&request_value(&env)).unwrap();
    let mut s1 = ByteReader::new(encode_frame(&bytes));
    let frame = read_frame_sync(&mut s1).unwrap();
    assert!(looks_like_json(&frame));
    let back: Value = serde_json::from_slice(&frame).unwrap();
    assert_eq!(request_from(&back).verb, verbs::HEALTH);

    // A unit variant is its number, in four bytes.
    let bytes = bincode::serialize(&3u32).unwrap();
    let mut s2 = ByteReader::new(encode_frame(&bytes));
    let frame = read_frame_sync(&mut s2).unwrap();
    assert!(!looks_like_json(&frame));
    let back: u32 = bincode::deserialize(&frame).unwrap();
    assert_eq!(back, 3);
}

#[test]
fn truncated_stream_returns_error() {
    // Only a partial length prefix (2 bytes instead of 4)
    let mut reader = ByteReader::new(vec![0u8, 1u8]);
    match read_frame_sync(&mut reader).unwrap_err() {
        IpcError::Io(kind, _) => assert!(matches!(kind, IoKind::UnexpectedEof)),
        other => panic!("expected Io error, got {other:?}"),
    }
}

#[test]
fn a_cut_payload_is_truncated() {
    let mut frame = encode_frame(&vec![1, 2, 3]);
    frame.pop();
    let mut reader = ByteReader::new(frame);
    assert!(matches!(
        read_frame_sync(&mut reader),
        Err(IpcError::Io(IoKind::UnexpectedEof, _))
    ));
}

#[test]
fn frames_follow_one_another() {
    let mut bytes = encode_frame(&vec![7; 300]);
    assert_eq!(&bytes[..4], &[44, 1, 0, 0]);
    bytes.extend(encode_frame(&vec![]));
    bytes.extend(encode_frame(&vec![9]));
    let mut reader = ByteReader::new(bytes);
    assert_eq!(read_frame_sync(&mut reader).unwrap(), vec![7; 300]);
    assert_eq!(read_frame_sync(&mut reader).unwrap(), Vec::<u8>::new());
    assert_eq!(read_frame_sync(&mut reader).unwrap(), vec![9]);
    assert!(read_frame_sync(&mut reader).is_err());
}

#[test]
fn each_error_has_its_text() {
    let texts = [
        (IpcError::Io(IoKind::Other, "x".into()), "I/O error: x"),
        (IpcError::Encode("x".into()), "encode error: x"),
        (IpcError::Decode("x".into()), "decode error: x"),
        (IpcError::JsonEncode("x".into()), "JSON encode error: x"),
        (IpcError::JsonDecode("x".into()), "JSON decode error: x"),
        (
            IpcError::FrameTooLarge { len: 70, max: 60 },
            "frame too large: declared 70 bytes exceeds max 60",
        ),
        (IpcError::Protocol("x".into()), "protocol error: x"),
    ];
    for (e, text) in texts {
        assert_eq!(e.message(), text);
    }
}
