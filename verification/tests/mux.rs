use hardlight::client_mux::ClientFrameAction;
use hardlight::client_mux::ClientMux;
use hardlight::client_mux::SubmitOutcome;
use hardlight::server_mux::ServerFrameAction;
use hardlight::server_mux::ServerMux;
use hardlight::wire::decode_client_message;
use hardlight::wire::encode_server_message;
use hardlight::wire::ClientMessage;
use hardlight::wire::RpcHandlerError;
use hardlight::wire::ServerMessage;

fn submit_expect_id(mux: &mut ClientMux<u32>, payload: Vec<u8>, handle: u32) -> (u8, Vec<u8>) {
    match mux.submit(payload, handle) {
        SubmitOutcome::Accepted { id, frame } => (id, frame),
        SubmitOutcome::Rejected { .. } => panic!("expected the call to be accepted"),
    }
}

#[test]
fn ids_are_lowest_free_and_distinct() {
    let mut mux: ClientMux<u32> = ClientMux::new();
    let (id0, _) = submit_expect_id(&mut mux, vec![1], 100);
    let (id1, _) = submit_expect_id(&mut mux, vec![2], 101);
    let (id2, _) = submit_expect_id(&mut mux, vec![3], 102);
    assert_eq!((id0, id1, id2), (0, 1, 2));
}

#[test]
fn freed_id_is_reused_lowest_first() {
    let mut mux: ClientMux<u32> = ClientMux::new();
    for n in 0..3u32 {
        submit_expect_id(&mut mux, vec![], n);
    }
    assert_eq!(mux.take_handle(1), Some(1));
    let (id, _) = submit_expect_id(&mut mux, vec![], 9);
    assert_eq!(id, 1, "the lowest free ID is taken first");
}

#[test]
fn overflow_rejects_without_evicting() {
    let mut mux: ClientMux<u32> = ClientMux::new();
    for n in 0..256u32 {
        let (id, _) = submit_expect_id(&mut mux, vec![], n);
        assert_eq!(id as u32, n);
    }
    // the 257th call is rejected and hands the handle back
    match mux.submit(vec![], 999) {
        SubmitOutcome::Rejected { handle } => assert_eq!(handle, 999),
        SubmitOutcome::Accepted { .. } => panic!("table was full; no slot may be evicted"),
    }
    // every outstanding call is still there
    for n in 0..256u32 {
        assert_eq!(mux.take_handle(n as u8), Some(n));
    }
}

#[test]
fn releasing_one_slot_lets_a_submission_through() {
    let mut mux: ClientMux<u32> = ClientMux::new();
    for n in 0..256u32 {
        submit_expect_id(&mut mux, vec![], n);
    }
    assert!(matches!(mux.submit(vec![], 999), SubmitOutcome::Rejected { .. }));
    assert_eq!(mux.take_handle(77), Some(77));
    let (id, _) = submit_expect_id(&mut mux, vec![], 1000);
    assert_eq!(id, 77);
}

#[test]
fn submitted_frame_is_the_request_encoding() {
    let mut mux: ClientMux<u32> = ClientMux::new();
    let (id, frame) = submit_expect_id(&mut mux, vec![5, 6], 1);
    assert_eq!(
        decode_client_message(&frame),
        Some(ClientMessage::RPCRequest {
            id,
            internal: vec![5, 6]
        })
    );
}

#[test]
fn response_delivers_stored_handle_exactly_once() {
    let mut mux: ClientMux<u32> = ClientMux::new();
    let (id, _) = submit_expect_id(&mut mux, vec![], 42);
    let reply = encode_server_message(&ServerMessage::RPCResponse {
        id,
        output: Ok(vec![8]),
    });
    match mux.on_frame(&reply) {
        ClientFrameAction::Deliver { id: rid, handle, output } => {
            assert_eq!(rid, id);
            assert_eq!(handle, 42);
            assert_eq!(output, Ok(vec![8]));
        }
        _ => panic!("expected a delivery"),
    }
    // a second response with the same ID finds no outstanding call
    match mux.on_frame(&reply) {
        ClientFrameAction::Stale { id: rid } => assert_eq!(rid, id),
        _ => panic!("expected the duplicate response to be stale"),
    }
}

#[test]
fn fast_call_completes_before_slow_call() {
    let mut mux: ClientMux<u32> = ClientMux::new();
    let (slow, _) = submit_expect_id(&mut mux, vec![], 1);
    let (fast, _) = submit_expect_id(&mut mux, vec![], 2);
    let fast_reply = encode_server_message(&ServerMessage::RPCResponse {
        id: fast,
        output: Ok(vec![]),
    });
    match mux.on_frame(&fast_reply) {
        ClientFrameAction::Deliver { handle, .. } => assert_eq!(handle, 2),
        _ => panic!("expected a delivery"),
    }
    // the slow call is still outstanding and completes later
    let slow_reply = encode_server_message(&ServerMessage::RPCResponse {
        id: slow,
        output: Err(RpcHandlerError::BadInputBytes),
    });
    match mux.on_frame(&slow_reply) {
        ClientFrameAction::Deliver { handle, output, .. } => {
            assert_eq!(handle, 1);
            assert_eq!(output, Err(RpcHandlerError::BadInputBytes));
        }
        _ => panic!("expected a delivery"),
    }
}

#[test]
fn state_change_frame_is_handed_to_the_replica() {
    let mut mux: ClientMux<u32> = ClientMux::new();
    let frame = encode_server_message(&ServerMessage::StateChange(vec![(
        "counter".to_string(),
        vec![1, 2],
    )]));
    match mux.on_frame(&frame) {
        ClientFrameAction::Apply { changes } => {
            assert_eq!(changes, vec![("counter".to_string(), vec![1, 2])]);
        }
        _ => panic!("expected a state-change application"),
    }
}

#[test]
fn event_and_malformed_frames_are_ignored() {
    let mut mux: ClientMux<u32> = ClientMux::new();
    let event = encode_server_message(&ServerMessage::NewEvent(vec![1]));
    assert!(matches!(mux.on_frame(&event), ClientFrameAction::EventIgnored));
    assert!(matches!(mux.on_frame(&vec![200, 1, 2]), ClientFrameAction::Malformed));
    // the connection state is untouched: a submission still gets ID 0
    let (id, _) = submit_expect_id(&mut mux, vec![], 5);
    assert_eq!(id, 0);
}

#[test]
fn duplicate_request_id_is_ignored_on_the_server() {
    let mut mux = ServerMux::new();
    let request = hardlight::wire::encode_client_message(&ClientMessage::RPCRequest {
        id: 4,
        internal: vec![1],
    });
    match mux.on_client_frame(&request) {
        ServerFrameAction::Dispatch { id, payload } => {
            assert_eq!(id, 4);
            assert_eq!(payload, vec![1]);
        }
        _ => panic!("expected a dispatch"),
    }
    // the same ID again while the first call is busy: ignored
    match mux.on_client_frame(&request) {
        ServerFrameAction::DuplicateId { id } => assert_eq!(id, 4),
        _ => panic!("expected the duplicate to be ignored"),
    }
    // the first call still completes normally and frees the ID
    let frame = mux.on_handler_response(4, Ok(vec![9]));
    assert_eq!(
        hardlight::wire::decode_server_message(&frame),
        Some(ServerMessage::RPCResponse {
            id: 4,
            output: Ok(vec![9])
        })
    );
    assert!(matches!(
        mux.on_client_frame(&request),
        ServerFrameAction::Dispatch { .. }
    ));
}

#[test]
fn malformed_client_frame_terminates() {
    let mut mux = ServerMux::new();
    assert!(matches!(mux.on_client_frame(&vec![7, 7]), ServerFrameAction::Malformed));
}

#[test]
fn echoed_call_round_trips_end_to_end() {
    // client submits, server dispatches, a handler echoes the payload,
    // the reply flows back to the caller unchanged
    let mut client: ClientMux<u32> = ClientMux::new();
    let mut server = ServerMux::new();
    let payload = vec![10, 20, 30];
    let (id, frame) = submit_expect_id(&mut client, payload.clone(), 7);
    let dispatched = match server.on_client_frame(&frame) {
        ServerFrameAction::Dispatch { id: sid, payload: p } => {
            assert_eq!(sid, id);
            p
        }
        _ => panic!("expected a dispatch"),
    };
    let reply = server.on_handler_response(id, Ok(dispatched));
    match client.on_frame(&reply) {
        ClientFrameAction::Deliver { handle, output, .. } => {
            assert_eq!(handle, 7);
            assert_eq!(output, Ok(payload));
        }
        _ => panic!("expected a delivery"),
    }
}
