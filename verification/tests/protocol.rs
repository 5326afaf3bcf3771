use ssmv::client::{check_reply, connect_step, ClientSession, ConnectAction, ConnectEvent,
    ConnectPhase, BOOT_DEADLINE_MS, CONNECT_TIMEOUT_MS, RETRY_INTERVAL_MS};
use ssmv::codec::{decode_payload, decode_response_payload, encode_payload,
    encode_response_payload, serde_array, WireError, MAX_PAYLOAD_LEN};
use ssmv::frame::{encode_message, encode_response, frame_len_from_header, read_frame,
    read_stream, FrameRead};
use ssmv::msg::{CameraView, Message, Response, Tri, Vec3Bits};
use ssmv::viewer::{gather_face_vertices, ssmv, ListenerConn, ListenerStep, UpdateOutcome,
    ViewerState};

fn v3(x: f32, y: f32, z: f32) -> Vec3Bits {
    Vec3Bits { x: x.to_bits(), y: y.to_bits(), z: z.to_bits() }
}

fn tri(a: i32, b: i32, c: i32) -> Tri {
    Tri { a, b, c }
}

fn triangle_mesh() -> Message {
    Message::Mesh {
        verts: vec![v3(0.0, 0.0, 0.0), v3(1.0, 0.0, 0.0), v3(0.0, 1.0, 0.0)],
        faces: vec![tri(0, 1, 2)],
    }
}

// --- codec round trips ---

#[test]
fn round_trip_mesh() {
    let m = triangle_mesh();
    let bytes = encode_payload(&m);
    let decoded = decode_payload(&bytes).unwrap();
    assert_eq!(decoded, m);
}

#[test]
fn round_trip_mesh_zero_vertices() {
    let m = Message::Mesh { verts: vec![], faces: vec![] };
    let bytes = encode_payload(&m);
    assert_eq!(bytes.len(), 17);
    let decoded = decode_payload(&bytes).unwrap();
    assert_eq!(decoded, m);
}

#[test]
fn round_trip_mesh_empty_face_list() {
    let m = Message::Mesh {
        verts: vec![v3(4.0, 5.0, 1.0), v3(0.0, 1.0, 7.0)],
        faces: vec![],
    };
    let bytes = encode_payload(&m);
    let decoded = decode_payload(&bytes).unwrap();
    assert_eq!(decoded, m);
}

#[test]
fn round_trip_mesh_negative_index_bits() {
    // The codec carries any i32 bit pattern; index validity is the
    // producer's obligation, not the codec's.
    let m = Message::Mesh { verts: vec![], faces: vec![tri(-1, 0, -2147483648)] };
    let bytes = encode_payload(&m);
    let decoded = decode_payload(&bytes).unwrap();
    assert_eq!(decoded, m);
}

#[test]
fn round_trip_set_view() {
    let m = Message::SetView(CameraView {
        position: v3(1.0, 2.0, 3.0),
        look_at: v3(-0.5, 0.25, 1e30),
    });
    let bytes = encode_payload(&m);
    assert_eq!(bytes.len(), 25);
    let decoded = decode_payload(&bytes).unwrap();
    assert_eq!(decoded, m);
}

#[test]
fn round_trip_request_view() {
    let m = Message::RequestView;
    let bytes = encode_payload(&m);
    assert_eq!(bytes.len(), 1);
    let decoded = decode_payload(&bytes).unwrap();
    assert_eq!(decoded, m);
}

#[test]
fn round_trip_response_get_view() {
    let r = Response::GetView(CameraView {
        position: v3(1.0, 2.0, 3.0),
        look_at: v3(0.0, 0.0, 0.0),
    });
    let bytes = encode_response_payload(&r);
    let decoded = decode_response_payload(&bytes).unwrap();
    assert_eq!(decoded, r);
}

#[test]
fn round_trip_response_other() {
    let bytes = encode_response_payload(&Response::Other);
    assert_eq!(bytes, vec![1u8]);
    let decoded = decode_response_payload(&bytes).unwrap();
    assert_eq!(decoded, Response::Other);
}

#[test]
fn serde_array_returns_the_message() {
    let m = triangle_mesh();
    let back = serde_array(&m).unwrap();
    assert_eq!(back, m);
}

#[test]
fn encoded_set_view_exact_bytes() {
    let m = Message::SetView(CameraView {
        position: v3(1.0, 2.0, 3.0),
        look_at: v3(0.0, 0.0, 0.0),
    });
    let framed = encode_message(&m);
    let mut expected: Vec<u8> = Vec::new();
    expected.extend_from_slice(&25u64.to_le_bytes());
    expected.push(1u8);
    for f in [1.0f32, 2.0, 3.0, 0.0, 0.0, 0.0] {
        expected.extend_from_slice(&f.to_bits().to_le_bytes());
    }
    assert_eq!(framed, expected);
}

#[test]
fn encoded_mesh_layout_is_self_describing() {
    // Tag, vertex count, vertices, face count, faces: the dimensions stand
    // inline before the element data.
    let m = triangle_mesh();
    let bytes = encode_payload(&m);
    assert_eq!(bytes.len(), 17 + 3 * 12 + 12);
    assert_eq!(bytes[0], 0u8);
    assert_eq!(&bytes[1..9], &3u64.to_le_bytes());
    let face_cnt_off = 9 + 36;
    assert_eq!(&bytes[face_cnt_off..face_cnt_off + 8], &1u64.to_le_bytes());
}

// --- malformed payloads ---

#[test]
fn decode_rejects_empty_payload() {
    assert_eq!(decode_payload(&[]), Err(WireError::MalformedPayload));
}

#[test]
fn decode_rejects_unknown_tag() {
    assert_eq!(decode_payload(&[9u8]), Err(WireError::MalformedPayload));
}

#[test]
fn decode_rejects_trailing_bytes() {
    let mut bytes = encode_payload(&Message::RequestView);
    bytes.push(0);
    assert_eq!(decode_payload(&bytes), Err(WireError::MalformedPayload));
}

#[test]
fn decode_rejects_short_mesh_body() {
    // A mesh tag whose vertex count promises more than the payload holds.
    let mut bytes = vec![0u8];
    bytes.extend_from_slice(&5u64.to_le_bytes());
    bytes.extend_from_slice(&[0u8; 8]);
    assert_eq!(decode_payload(&bytes), Err(WireError::MalformedPayload));
}

#[test]
fn decode_rejects_short_view_body() {
    let bytes = vec![1u8, 0, 0, 0];
    assert_eq!(decode_payload(&bytes), Err(WireError::MalformedPayload));
}

#[test]
fn decode_response_rejects_unknown_tag() {
    assert_eq!(decode_response_payload(&[7u8]), Err(WireError::MalformedPayload));
}

// --- framing ---

#[test]
fn framing_back_to_back_messages_in_order() {
    let messages = vec![
        Message::SetView(CameraView {
            position: v3(1.0, 2.0, 3.0),
            look_at: v3(0.0, 0.0, 0.0),
        }),
        triangle_mesh(),
        Message::RequestView,
    ];
    let mut stream: Vec<u8> = Vec::new();
    for m in &messages {
        stream.extend_from_slice(&encode_message(m));
    }

    let mut pos = 0usize;
    let mut seen: Vec<Message> = Vec::new();
    loop {
        match read_frame(&stream, pos) {
            FrameRead::Closed => break,
            FrameRead::Frame { payload, next } => {
                seen.push(decode_payload(&payload).unwrap());
                pos = next;
            }
            FrameRead::Corrupt(e) => panic!("stream corrupt: {:?}", e),
        }
    }
    assert_eq!(seen, messages);

    // The whole-stream drain agrees.
    let drained = read_stream(&stream).unwrap();
    assert_eq!(drained, messages);

    // Once the writer closes, the next read reports the clean close.
    assert!(matches!(read_frame(&stream, pos), FrameRead::Closed));
}

#[test]
fn read_frame_reports_truncated_header() {
    let stream = vec![1u8, 2, 3];
    assert!(matches!(
        read_frame(&stream, 0),
        FrameRead::Corrupt(WireError::TruncatedHeader)
    ));
}

#[test]
fn read_frame_reports_oversized_length() {
    let stream = (MAX_PAYLOAD_LEN + 1).to_le_bytes().to_vec();
    assert!(matches!(
        read_frame(&stream, 0),
        FrameRead::Corrupt(WireError::OversizedLength)
    ));
}

#[test]
fn read_frame_reports_truncated_payload() {
    let mut stream = 10u64.to_le_bytes().to_vec();
    stream.extend_from_slice(&[0u8; 5]);
    assert!(matches!(
        read_frame(&stream, 0),
        FrameRead::Corrupt(WireError::TruncatedPayload)
    ));
}

#[test]
fn read_stream_stops_on_malformed_payload() {
    let mut stream: Vec<u8> = Vec::new();
    stream.extend_from_slice(&1u64.to_le_bytes());
    stream.push(9u8);
    assert_eq!(read_stream(&stream), Err(WireError::MalformedPayload));
}

#[test]
fn frame_header_cap() {
    assert_eq!(frame_len_from_header(&25u64.to_le_bytes()), Ok(25usize));
    assert_eq!(
        frame_len_from_header(&(MAX_PAYLOAD_LEN + 1).to_le_bytes()),
        Err(WireError::OversizedLength)
    );
}

// --- the update loop ---

#[test]
fn requires_response_only_for_view_requests() {
    assert!(!triangle_mesh().requires_response());
    assert!(!Message::SetView(CameraView {
        position: v3(0.0, 0.0, 0.0),
        look_at: v3(0.0, 0.0, 0.0),
    })
    .requires_response());
    assert!(Message::RequestView.requires_response());
}

#[test]
fn startup_camera() {
    let viewer = ssmv();
    let view = viewer.current_view();
    assert_eq!(view.position, v3(-1.0, -1.0, -1.0));
    assert_eq!(view.look_at, v3(0.0, 0.0, 0.0));
}

#[test]
fn mesh_message_recenters_on_centroid() {
    let mut viewer = ssmv();
    let out = viewer.update_step(&triangle_mesh());
    let gathered = match out {
        UpdateOutcome::MeshApplied { gathered } => gathered,
        _ => panic!("a mesh is fire-and-forget"),
    };
    // The flattened index list is walked backwards: vertex 2, then 1, then 0.
    assert_eq!(
        gathered,
        vec![v3(0.0, 1.0, 0.0), v3(1.0, 0.0, 0.0), v3(0.0, 0.0, 0.0)]
    );

    // The renderer computes the centroid of the gathered vertices and makes
    // it the new camera target.
    let n = gathered.len() as f32;
    let mut cx = 0.0f32;
    let mut cy = 0.0f32;
    let mut cz = 0.0f32;
    for v in &gathered {
        cx += f32::from_bits(v.x);
        cy += f32::from_bits(v.y);
        cz += f32::from_bits(v.z);
    }
    let centroid = v3(cx / n, cy / n, cz / n);
    assert_eq!(centroid, v3(1.0 / 3.0, 1.0 / 3.0, 0.0));

    let eye_before = viewer.current_view().position;
    viewer.set_look_target(centroid);
    assert_eq!(viewer.current_view().look_at, centroid);
    assert_eq!(viewer.current_view().position, eye_before);
}

#[test]
fn gather_of_empty_face_list_is_empty() {
    let verts = vec![v3(1.0, 2.0, 3.0)];
    let faces: Vec<Tri> = vec![];
    assert_eq!(gather_face_vertices(&verts, &faces), vec![]);
}

#[test]
fn set_view_then_request_view_returns_it_exactly() {
    let mut viewer = ssmv();
    let wanted = CameraView {
        position: v3(1.0, 2.0, 3.0),
        look_at: v3(0.0, 0.0, 0.0),
    };
    match viewer.update_step(&Message::SetView(wanted)) {
        UpdateOutcome::ViewApplied(v) => assert_eq!(v, wanted),
        _ => panic!("setting the view is fire-and-forget"),
    }
    match viewer.update_step(&Message::RequestView) {
        UpdateOutcome::Replied(Response::GetView(v)) => assert_eq!(v, wanted),
        _ => panic!("a view request is owed a view"),
    }
}

#[test]
fn reply_carries_the_view_at_dequeue_time() {
    let mut viewer = ssmv();
    let first = CameraView {
        position: v3(1.0, 1.0, 1.0),
        look_at: v3(0.0, 0.0, 0.0),
    };
    let second = CameraView {
        position: v3(9.0, 9.0, 9.0),
        look_at: v3(8.0, 8.0, 8.0),
    };
    viewer.update_step(&Message::SetView(first));
    let reply = match viewer.update_step(&Message::RequestView) {
        UpdateOutcome::Replied(r) => r,
        _ => panic!("a view request is owed a reply"),
    };
    viewer.update_step(&Message::SetView(second));
    // The reply still holds the view from the moment the request was
    // dequeued, not the later one.
    assert_eq!(reply, Response::GetView(first));
}

// --- the listener ---

#[test]
fn listener_holds_the_read_loop_for_a_reply() {
    let mut conn = ListenerConn::new();
    assert!(!conn.awaiting_reply);

    let payload = encode_payload(&triangle_mesh());
    match conn.on_payload(&payload) {
        ListenerStep::Deliver { msg, await_reply } => {
            assert_eq!(msg, triangle_mesh());
            assert!(!await_reply);
        }
        _ => panic!("a well-formed payload is delivered"),
    }
    assert!(!conn.awaiting_reply);

    let payload = encode_payload(&Message::RequestView);
    match conn.on_payload(&payload) {
        ListenerStep::Deliver { msg, await_reply } => {
            assert_eq!(msg, Message::RequestView);
            assert!(await_reply);
        }
        _ => panic!("a well-formed payload is delivered"),
    }
    assert!(conn.awaiting_reply);

    let reply = Response::GetView(CameraView {
        position: v3(1.0, 2.0, 3.0),
        look_at: v3(0.0, 0.0, 0.0),
    });
    let frame = conn.on_reply(&reply);
    assert!(!conn.awaiting_reply);
    assert_eq!(frame, encode_response(&reply));
}

#[test]
fn listener_abandons_a_malformed_connection() {
    let mut conn = ListenerConn::new();
    match conn.on_payload(&[42u8]) {
        ListenerStep::Abandon(e) => assert_eq!(e, WireError::MalformedPayload),
        _ => panic!("a malformed payload is fatal to the connection"),
    }
    assert!(!conn.awaiting_reply);
}

// --- the client connection lifecycle ---

#[test]
fn connect_or_launch_scenario() {
    // Port closed: the direct attempt fails fast, exactly one subprocess is
    // launched, and the connection comes up within the boot deadline.
    let mut launches = 0u32;

    let (phase, action) = connect_step(ConnectPhase::Unconnected, ConnectEvent::OpenRequested);
    assert_eq!(phase, ConnectPhase::Connecting);
    assert_eq!(action, ConnectAction::AttemptConnect { timeout_ms: CONNECT_TIMEOUT_MS });
    assert!(CONNECT_TIMEOUT_MS < 100);

    let (phase, action) = connect_step(phase, ConnectEvent::ConnectFailed);
    assert_eq!(phase, ConnectPhase::Launching);
    assert_eq!(action, ConnectAction::LaunchViewer);
    launches += 1;

    let (phase, action) = connect_step(phase, ConnectEvent::ViewerLaunched);
    assert_eq!(phase, ConnectPhase::Retrying { elapsed_ms: 0 });
    assert_eq!(action, ConnectAction::AttemptConnect { timeout_ms: CONNECT_TIMEOUT_MS });

    let (phase, action) = connect_step(phase, ConnectEvent::ConnectFailed);
    assert_eq!(phase, ConnectPhase::Retrying { elapsed_ms: RETRY_INTERVAL_MS });
    assert_eq!(action, ConnectAction::SleepThenConnect { sleep_ms: RETRY_INTERVAL_MS });

    let (phase, action) = connect_step(phase, ConnectEvent::ConnectSucceeded);
    assert_eq!(phase, ConnectPhase::Connected);
    assert_eq!(action, ConnectAction::UseConnection);
    assert_eq!(launches, 1);
}

#[test]
fn warm_viewer_needs_no_launch() {
    let (phase, _) = connect_step(ConnectPhase::Unconnected, ConnectEvent::OpenRequested);
    let (phase, action) = connect_step(phase, ConnectEvent::ConnectSucceeded);
    assert_eq!(phase, ConnectPhase::Connected);
    assert_eq!(action, ConnectAction::UseConnection);
}

#[test]
fn retrying_gives_up_at_the_boot_deadline() {
    let (phase, _) = connect_step(ConnectPhase::Unconnected, ConnectEvent::OpenRequested);
    let (phase, _) = connect_step(phase, ConnectEvent::ConnectFailed);
    let (mut phase, _) = connect_step(phase, ConnectEvent::ViewerLaunched);
    let mut slept = 0u64;
    let mut launches_after_first = 0u32;
    loop {
        match phase {
            ConnectPhase::Retrying { elapsed_ms } => {
                assert!(elapsed_ms < BOOT_DEADLINE_MS);
                assert_eq!(elapsed_ms, slept);
            }
            ConnectPhase::Failed => break,
            other => panic!("unreachable phase while the viewer never comes up: {:?}", other),
        }
        let (next, action) = connect_step(phase, ConnectEvent::ConnectFailed);
        match action {
            ConnectAction::SleepThenConnect { sleep_ms } => slept += sleep_ms,
            ConnectAction::ReportFailure => assert_eq!(next, ConnectPhase::Failed),
            ConnectAction::LaunchViewer => launches_after_first += 1,
            other => panic!("unexpected action: {:?}", other),
        }
        phase = next;
    }
    assert_eq!(launches_after_first, 0);
    assert!(slept < BOOT_DEADLINE_MS);
}

#[test]
fn unexpected_reply_is_a_protocol_violation() {
    let view = CameraView {
        position: v3(1.0, 2.0, 3.0),
        look_at: v3(0.0, 0.0, 0.0),
    };
    assert_eq!(check_reply(&Response::GetView(view)), Ok(view));
    assert_eq!(check_reply(&Response::Other), Err(WireError::UnexpectedReply));
}

#[test]
fn one_request_in_flight_at_a_time() {
    let mut session = ClientSession::new();
    assert!(!session.in_flight);

    // Fire-and-forget sends return with nothing outstanding: the caller
    // never waits for a reply.
    session.record_send(&triangle_mesh());
    assert!(!session.in_flight);

    session.record_send(&Message::RequestView);
    assert!(session.in_flight);
    session.record_reply();
    assert!(!session.in_flight);
}
