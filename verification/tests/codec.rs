use hardlight::wire::decode_client_message;
use hardlight::wire::decode_server_message;
use hardlight::wire::encode_client_message;
use hardlight::wire::encode_server_message;
use hardlight::wire::err_from_tag;
use hardlight::wire::err_tag;
use hardlight::wire::ClientMessage;
use hardlight::wire::RpcHandlerError;
use hardlight::wire::ServerMessage;

#[test]
fn rpc_request_exact_bytes() {
    let msg = ClientMessage::RPCRequest {
        id: 7,
        internal: vec![1, 2, 3],
    };
    let bytes = encode_client_message(&msg);
    assert_eq!(
        bytes,
        vec![0u8, 7, 3, 0, 0, 0, 0, 0, 0, 0, 1, 2, 3],
        "tag, id, 8-byte little-endian length, payload"
    );
}

#[test]
fn rpc_request_round_trip() {
    let msg = ClientMessage::RPCRequest {
        id: 255,
        internal: vec![9, 8, 7, 6, 5],
    };
    let bytes = encode_client_message(&msg);
    assert_eq!(decode_client_message(&bytes), Some(msg));
}

#[test]
fn rpc_request_empty_payload_round_trip() {
    let msg = ClientMessage::RPCRequest {
        id: 0,
        internal: vec![],
    };
    let bytes = encode_client_message(&msg);
    assert_eq!(bytes.len(), 10);
    assert_eq!(decode_client_message(&bytes), Some(msg));
}

#[test]
fn client_decode_rejects_malformed() {
    // empty, too short, wrong tag, truncated payload, trailing garbage
    assert_eq!(decode_client_message(&vec![]), None);
    assert_eq!(decode_client_message(&vec![0]), None);
    assert_eq!(decode_client_message(&vec![9, 1, 0, 0, 0, 0, 0, 0, 0, 0]), None);
    assert_eq!(decode_client_message(&vec![0, 1, 5, 0, 0, 0, 0, 0, 0, 0, 1]), None);
    let mut bytes = encode_client_message(&ClientMessage::RPCRequest {
        id: 1,
        internal: vec![4],
    });
    bytes.push(0);
    assert_eq!(decode_client_message(&bytes), None);
}

#[test]
fn rpc_response_ok_round_trip() {
    let msg = ServerMessage::RPCResponse {
        id: 3,
        output: Ok(vec![42, 43]),
    };
    let bytes = encode_server_message(&msg);
    assert_eq!(decode_server_message(&bytes), Some(msg));
}

#[test]
fn rpc_response_err_round_trip_every_variant() {
    let variants = [
        RpcHandlerError::BadInputBytes,
        RpcHandlerError::BadOutputBytes,
        RpcHandlerError::TooManyCallsInFlight,
        RpcHandlerError::ClientNotConnected,
        RpcHandlerError::StatePoisoned,
    ];
    for (i, e) in variants.iter().enumerate() {
        let msg = ServerMessage::RPCResponse {
            id: i as u8,
            output: Err(*e),
        };
        let bytes = encode_server_message(&msg);
        assert_eq!(bytes, vec![0u8, i as u8, 0, err_tag(*e)]);
        assert_eq!(decode_server_message(&bytes), Some(msg));
    }
}

#[test]
fn err_tags_round_trip() {
    let variants = [
        RpcHandlerError::BadInputBytes,
        RpcHandlerError::BadOutputBytes,
        RpcHandlerError::TooManyCallsInFlight,
        RpcHandlerError::ClientNotConnected,
        RpcHandlerError::StatePoisoned,
    ];
    for e in variants {
        assert_eq!(err_from_tag(err_tag(e)), Some(e));
    }
    assert_eq!(err_from_tag(5), None);
    assert_eq!(err_from_tag(255), None);
}

#[test]
fn state_change_round_trip() {
    let msg = ServerMessage::StateChange(vec![
        ("counter".to_string(), vec![1, 0, 0, 0]),
        ("name".to_string(), vec![104, 105]),
    ]);
    let bytes = encode_server_message(&msg);
    assert_eq!(decode_server_message(&bytes), Some(msg));
}

#[test]
fn state_change_empty_batch_round_trip() {
    let msg = ServerMessage::StateChange(vec![]);
    let bytes = encode_server_message(&msg);
    assert_eq!(bytes, vec![1u8, 0, 0, 0, 0, 0, 0, 0, 0]);
    assert_eq!(decode_server_message(&bytes), Some(msg));
}

#[test]
fn state_change_non_ascii_name_round_trip() {
    let msg = ServerMessage::StateChange(vec![("compteur\u{00e9}\u{4e16}".to_string(), vec![7])]);
    let bytes = encode_server_message(&msg);
    assert_eq!(decode_server_message(&bytes), Some(msg));
}

#[test]
fn new_event_round_trip() {
    let msg = ServerMessage::NewEvent(vec![1, 2]);
    let bytes = encode_server_message(&msg);
    assert_eq!(bytes[0], 2);
    assert_eq!(decode_server_message(&bytes), Some(msg));
}

#[test]
fn server_decode_rejects_malformed() {
    // empty, unknown tag, unknown error tag, response neither ok nor err,
    // truncated state-change batch, invalid utf-8 in a field name,
    // trailing garbage
    assert_eq!(decode_server_message(&vec![]), None);
    assert_eq!(decode_server_message(&vec![9]), None);
    assert_eq!(decode_server_message(&vec![0, 1, 0, 9]), None);
    assert_eq!(decode_server_message(&vec![0, 1, 2, 0]), None);
    assert_eq!(decode_server_message(&vec![1, 1, 0, 0, 0, 0, 0, 0, 0]), None);
    let name_is_invalid_utf8 = vec![
        1u8, 1, 0, 0, 0, 0, 0, 0, 0, // one entry
        1, 0, 0, 0, 0, 0, 0, 0, 0xff, // name blob: one invalid byte
        0, 0, 0, 0, 0, 0, 0, 0, // value blob: empty
    ];
    assert_eq!(decode_server_message(&name_is_invalid_utf8), None);
    let mut bytes = encode_server_message(&ServerMessage::NewEvent(vec![5]));
    bytes.push(0);
    assert_eq!(decode_server_message(&bytes), None);
}

#[test]
fn huge_declared_batch_count_is_rejected() {
    // a batch header claiming u64::MAX entries with no bytes behind it
    let bytes = vec![1u8, 255, 255, 255, 255, 255, 255, 255, 255];
    assert_eq!(decode_server_message(&bytes), None);
}

#[test]
fn encoding_is_deterministic() {
    let a = ServerMessage::StateChange(vec![("f".to_string(), vec![1])]);
    let b = ServerMessage::StateChange(vec![("f".to_string(), vec![1])]);
    assert_eq!(encode_server_message(&a), encode_server_message(&b));
}
