use dynamo_core::instances::EndpointInstanceId;
use dynamo_core::network::ConnectionInfo;
use dynamo_core::quic::batch::{Batch, BatchAction};
use dynamo_core::quic::client::{
    connect, lane_index, pick_lane, write_chunks, ClientContexts, ConnectionKey, ControlAction,
    ControlError, LanePlan, QuicResponseClientPool,
};
use dynamo_core::quic::config::{
    ConfigError, QuicResponseConfig, QuicResponseEnv, Setting, DEFAULT_MAX_BATCH_FRAMES,
};
use dynamo_core::quic::connection::{
    format_id, registration_id, ConnectionInfoError, QuicResponseConnectionInfo, PROTOCOL_VERSION,
    TRANSPORT_NAME,
};
use dynamo_core::quic::deferred::{
    DeferredResponse, MAX_DEFERRED_RESPONSE_BYTES, MAX_DEFERRED_RESPONSE_FRAMES,
};
use dynamo_core::quic::delivery::{DeliveryStep, DeliveryTask};
use dynamo_core::quic::fingerprint::{
    certificate_fingerprint, certificate_matches, decode_fingerprint, encode_hex, FingerprintError,
};
use dynamo_core::quic::frame::{
    read_header, Frame, FrameError, FrameKind, FRAME_HEADER_LEN, MAX_FRAME_PAYLOAD,
};
use dynamo_core::quic::lane::{
    CoalescingLaneQueue, LaneTrySendError, RecvStep, LANE_QUEUE_CAPACITY,
};
use dynamo_core::quic::response_slot::ServerFrameError;
use dynamo_core::quic::sender::{LaneChoice, QuicResponseSender, SendError};
use dynamo_core::quic::server::{lane_bundle, MonitorEvent, QuicResponseServer, ResponseMonitor};
use dynamo_core::quic::server_state::{FrameAction, ServerState, TOMBSTONE_TTL};

fn frame(index: usize) -> Frame {
    Frame::new(FrameKind::Data, 0, index.to_string().into_bytes(), 0)
}

fn frame_of(kind: FrameKind, id: u128, payload: &[u8]) -> Frame {
    Frame::new(kind, id, payload.to_vec(), 0)
}

fn env() -> QuicResponseEnv {
    QuicResponseEnv {
        connections: None,
        lanes: None,
        batch_interval_us: None,
        max_batch_frames: None,
        response_buffer_capacity: None,
        coalescing_queue: false,
        priority_prologue_stream: false,
    }
}

fn config(connections: usize, lanes: usize, priority: bool) -> QuicResponseConfig {
    QuicResponseConfig {
        connections,
        lanes,
        batch_interval: 0,
        max_batch_frames: DEFAULT_MAX_BATCH_FRAMES as usize,
        coalescing_queue: false,
        response_buffer_capacity: 64,
        priority_prologue_stream: priority,
    }
}

fn instance(instance_id: u64) -> EndpointInstanceId {
    EndpointInstanceId {
        namespace: "n".to_string(),
        component: "c".to_string(),
        endpoint: "e".to_string(),
        instance_id,
    }
}

#[test]
fn configuration_has_defaults_and_ranges() {
    let plain = QuicResponseConfig::from_env(&env()).unwrap();
    assert_eq!(
        plain,
        QuicResponseConfig {
            connections: 8,
            lanes: 8,
            batch_interval: 1_000,
            max_batch_frames: 64,
            coalescing_queue: false,
            response_buffer_capacity: 64,
            priority_prologue_stream: false,
        }
    );
    let mut set = env();
    set.connections = Some("2".to_string());
    set.lanes = Some("+16".to_string());
    set.batch_interval_us = Some("0".to_string());
    set.max_batch_frames = Some("".to_string());
    set.coalescing_queue = true;
    let read = QuicResponseConfig::from_env(&set).unwrap();
    assert_eq!((read.connections, read.lanes), (2, 16));
    assert_eq!((read.batch_interval, read.max_batch_frames), (0, 64));
    assert!(read.coalescing_queue);
}

#[test]
fn every_wrong_setting_is_refused() {
    let mut wrong = env();
    wrong.lanes = Some("many".to_string());
    assert_eq!(
        QuicResponseConfig::from_env(&wrong),
        Err(ConfigError::NotANumber {
            setting: Setting::Lanes
        })
    );
    wrong.lanes = Some("65".to_string());
    assert_eq!(
        QuicResponseConfig::from_env(&wrong),
        Err(ConfigError::OutOfRange {
            setting: Setting::Lanes,
            value: 65,
            min: 1,
            max: 64
        })
    );
    wrong.lanes = Some("4".to_string());
    assert_eq!(
        QuicResponseConfig::from_env(&wrong),
        Err(ConfigError::MoreConnectionsThanLanes {
            connections: 8,
            lanes: 4
        })
    );
    wrong.connections = Some("99999999999999999999999".to_string());
    assert_eq!(
        QuicResponseConfig::from_env(&wrong),
        Err(ConfigError::NotANumber {
            setting: Setting::Connections
        })
    );
}

#[test]
fn fingerprint_round_trip() {
    let fingerprint = [0x5a; 32];
    assert_eq!(
        decode_fingerprint(&encode_hex(&fingerprint)).unwrap(),
        fingerprint
    );
}

#[test]
fn fingerprints_are_read_strictly() {
    assert_eq!(encode_hex(&[0x00, 0xaf, 0x10]), "00af10");
    assert_eq!(
        decode_fingerprint("ab"),
        Err(FingerprintError::Length { len: 2 })
    );
    let mut text = "0".repeat(63);
    text.push('g');
    assert_eq!(decode_fingerprint(&text), Err(FingerprintError::Digits));
    let mut signed = "0".repeat(62);
    signed.push_str("+F");
    assert_eq!(decode_fingerprint(&signed).unwrap()[31], 15);
}

#[test]
fn certificates_are_pinned_by_their_digest() {
    // The digest of "abc" as published with the algorithm.
    let expected = "ba7816bf8f01cfea414140de5dae2223b00361a396177a9cb410ff61f20015ad";
    assert_eq!(certificate_fingerprint(b"abc"), expected);
    let pinned = decode_fingerprint(expected).unwrap();
    assert!(certificate_matches(b"abc", &pinned));
    assert!(!certificate_matches(b"abd", &pinned));
}

#[test]
fn frames_survive_their_wire_form() {
    let frame = frame_of(FrameKind::FirstData, 0x0102_0304, b"payload");
    let header = frame.header();
    assert_eq!(header.len(), FRAME_HEADER_LEN);
    assert_eq!(header[0], 8);
    assert_eq!(&header[1..17], &0x0102_0304_u128.to_be_bytes());
    assert_eq!(&header[17..], &7_u32.to_be_bytes());
    let read = read_header(&header).unwrap();
    assert_eq!(read.kind, FrameKind::FirstData);
    assert_eq!(read.registration_id, 0x0102_0304);
    assert_eq!(read.payload_len, 7);
    assert_eq!(frame.diagnostic_kind, Some("first_data"));
    assert!(frame.is_urgent());
    assert!(!frame_of(FrameKind::Data, 1, b"").is_urgent());
}

#[test]
fn wrong_headers_are_refused() {
    let mut header = frame_of(FrameKind::Data, 1, b"").header();
    header[0] = 11;
    assert_eq!(
        read_header(&header),
        Err(FrameError::UnknownKind { value: 11 })
    );
    header[0] = 2;
    header[17..].copy_from_slice(&(MAX_FRAME_PAYLOAD as u32 + 1).to_be_bytes());
    assert_eq!(
        read_header(&header),
        Err(FrameError::PayloadTooLarge {
            payload_len: MAX_FRAME_PAYLOAD + 1
        })
    );
}

#[test]
fn deferred_response_enforces_frame_and_byte_bounds() {
    let mut frame_bounded = DeferredResponse::new();
    for _ in 0..MAX_DEFERRED_RESPONSE_FRAMES {
        frame_bounded.push(Vec::new()).unwrap();
    }
    assert!(frame_bounded.push(b"overflow".to_vec()).is_err());

    let mut byte_bounded = DeferredResponse::new();
    byte_bounded
        .push(vec![0; MAX_DEFERRED_RESPONSE_BYTES])
        .unwrap();
    assert!(byte_bounded.push(b"overflow".to_vec()).is_err());
}

#[test]
fn coalescing_lane_queue_preserves_capacity_order_and_close() {
    let mut queue = CoalescingLaneQueue::new(LANE_QUEUE_CAPACITY);
    let mut notifications = 0;
    for index in 0..LANE_QUEUE_CAPACITY {
        notifications += usize::from(queue.try_send(frame(index)).unwrap());
    }
    assert_eq!(notifications, 1);
    assert!(matches!(
        queue.try_send(frame(LANE_QUEUE_CAPACITY)),
        Err(LaneTrySendError::Full(_))
    ));

    let mut batch = Vec::new();
    assert_eq!(
        queue.recv_many(&mut batch, 256),
        RecvStep::Received { count: 256 }
    );
    for (expected, actual) in (0..256).zip(&batch) {
        assert_eq!(actual.payload, expected.to_string().into_bytes());
    }

    assert!(!queue.try_send(frame(LANE_QUEUE_CAPACITY)).unwrap());
    batch.clear();
    assert_eq!(
        queue.recv_many(&mut batch, LANE_QUEUE_CAPACITY),
        RecvStep::Received { count: 257 }
    );
    for (expected, actual) in (256..=LANE_QUEUE_CAPACITY).zip(&batch) {
        assert_eq!(actual.payload, expected.to_string().into_bytes());
    }

    assert!(!queue.try_send(frame(LANE_QUEUE_CAPACITY + 1)).unwrap());
    queue.drop_sender();
    batch.clear();
    assert_eq!(
        queue.recv_many(&mut batch, LANE_QUEUE_CAPACITY),
        RecvStep::Received { count: 1 }
    );
    assert_eq!(
        batch[0].payload,
        (LANE_QUEUE_CAPACITY + 1).to_string().into_bytes()
    );
    batch.clear();
    assert_eq!(
        queue.recv_many(&mut batch, LANE_QUEUE_CAPACITY),
        RecvStep::Closed
    );
    assert!(matches!(
        queue.try_send(frame(0)),
        Err(LaneTrySendError::Closed(_))
    ));
}

#[test]
fn coalescing_lane_queue_prioritizes_prologue_over_full_data_queue() {
    let mut queue = CoalescingLaneQueue::new(LANE_QUEUE_CAPACITY);
    for index in 0..LANE_QUEUE_CAPACITY {
        queue.try_send(frame(index)).unwrap();
    }
    queue
        .try_send(frame_of(FrameKind::Prologue, 7, b""))
        .unwrap();

    let mut batch = Vec::new();
    assert_eq!(
        queue.recv_many(&mut batch, 1),
        RecvStep::Received { count: 1 }
    );
    assert_eq!(batch[0].kind, FrameKind::Prologue);
}

#[test]
fn idle_lane_is_woken_again_and_a_gone_writer_closes_it() {
    let mut queue = CoalescingLaneQueue::new(2);
    let mut batch = Vec::new();
    assert!(queue.try_send(frame(0)).unwrap());
    assert_eq!(
        queue.recv_many(&mut batch, 5),
        RecvStep::Received { count: 1 }
    );
    assert_eq!(queue.recv_many(&mut batch, 5), RecvStep::Wait);
    assert!(queue.try_send(frame(1)).unwrap());
    queue.clone_sender();
    assert_eq!(queue.sender_count(), 2);
    queue.drop_sender();
    assert_eq!(queue.sender_count(), 1);
    assert!(!queue.try_send(frame(2)).unwrap());
    queue.close_receiver();
    batch.clear();
    assert_eq!(queue.recv_many(&mut batch, 5), RecvStep::Closed);
    assert!(batch.is_empty());
}

#[test]
fn batches_take_a_ready_burst_without_an_interval() {
    for available in [1, 63, 64] {
        let (mut batch, action) = Batch::begin(64, 0);
        assert_eq!(
            action,
            BatchAction::Receive {
                limit: 64,
                deadline: None
            }
        );
        assert_eq!(
            batch.received(available, 10),
            BatchAction::Write { started_at: 10 }
        );
        assert_eq!(batch.len, available);
    }
}

#[test]
fn frames_arriving_before_deadline_join_the_same_batch() {
    let (mut batch, _) = Batch::begin(64, 1_000_000);
    assert_eq!(
        batch.received(1, 5),
        BatchAction::Receive {
            limit: 63,
            deadline: Some(1_000_005)
        }
    );
    assert_eq!(
        batch.received(63, 500_000),
        BatchAction::Write { started_at: 5 }
    );
    assert_eq!(batch.len, 64);
}

#[test]
fn deadline_and_closing_flush_a_partial_batch() {
    let (mut batch, _) = Batch::begin(64, 1_000_000);
    batch.received(1, 5);
    assert_eq!(
        batch.deadline_passed(),
        BatchAction::Write { started_at: 5 }
    );
    assert_eq!(batch.received(0, 9), BatchAction::Write { started_at: 5 });
    let (mut empty, _) = Batch::begin(64, 1_000_000);
    assert_eq!(empty.received(0, 9), BatchAction::Finished);
}

/// Processes a frame as a frontend does, collecting what the reader gets.
fn process(
    state: &mut ServerState<(), ()>,
    frame: Frame,
    priority: bool,
    delivered: &mut Vec<Vec<u8>>,
    resets: &mut usize,
) {
    let id = frame.registration_id;
    let mut task = match state.process_server_frame(frame, 5, priority).unwrap() {
        FrameAction::Open { pending } => {
            state.activate(id, pending, (), 5, 0, priority);
            return;
        }
        FrameAction::BeginDrain { first, .. } => DeliveryTask::first_and_held_back(id, first),
        FrameAction::Deliver { payload } => DeliveryTask::single(id, payload),
        FrameAction::Reset | FrameAction::Overflow { .. } => {
            *resets += 1;
            return;
        }
        FrameAction::Fail { .. } | FrameAction::Deferred | FrameAction::Close { .. } => return,
    };
    loop {
        match task.next(state, true) {
            DeliveryStep::Deliver { payload } => delivered.push(payload),
            DeliveryStep::Reset => *resets += 1,
            DeliveryStep::Finished | DeliveryStep::Close { .. } => return,
        }
    }
}

#[test]
fn priority_barrier_reorders_early_bulk_frames() {
    let mut state = ServerState::new();
    state.register(1, (), 0);
    let mut delivered = Vec::new();
    let mut resets = 0;
    for early in [
        frame_of(FrameKind::Prologue, 1, b""),
        frame_of(FrameKind::Data, 1, b"second"),
        frame_of(FrameKind::End, 1, b""),
    ] {
        process(&mut state, early, true, &mut delivered, &mut resets);
    }
    assert!(delivered.is_empty());
    process(
        &mut state,
        frame_of(FrameKind::FirstData, 1, b"first"),
        true,
        &mut delivered,
        &mut resets,
    );
    assert_eq!(delivered, vec![b"first".to_vec(), b"second".to_vec()]);
    assert!(state.active(1).is_none());
    assert_eq!(resets, 0);
}

#[test]
fn bulk_frames_may_overtake_the_prologue() {
    let mut state = ServerState::new();
    state.register(1, (), 0);
    let mut delivered = Vec::new();
    let mut resets = 0;
    for next in [
        frame_of(FrameKind::Data, 1, b"b"),
        frame_of(FrameKind::Prologue, 1, b""),
        frame_of(FrameKind::FirstData, 1, b"a"),
        frame_of(FrameKind::Data, 1, b"c"),
        frame_of(FrameKind::End, 1, b""),
    ] {
        process(&mut state, next, true, &mut delivered, &mut resets);
    }
    assert_eq!(delivered, vec![b"a".to_vec(), b"b".to_vec(), b"c".to_vec()]);
    assert_eq!(resets, 0);
}

#[test]
fn single_lane_delivers_in_order() {
    let mut state = ServerState::new();
    state.register(1, (), 0);
    let mut delivered = Vec::new();
    let mut resets = 0;
    for next in [
        frame_of(FrameKind::Prologue, 1, b""),
        frame_of(FrameKind::Data, 1, b"a"),
        frame_of(FrameKind::Data, 1, b"b"),
        frame_of(FrameKind::End, 1, b""),
        frame_of(FrameKind::Data, 1, b"late"),
        frame_of(FrameKind::Data, 2, b"unknown"),
    ] {
        process(&mut state, next, false, &mut delivered, &mut resets);
    }
    assert_eq!(delivered, vec![b"a".to_vec(), b"b".to_vec()]);
    assert_eq!(resets, 2);
}

#[test]
fn protocol_violations_are_told_apart() {
    let mut state: ServerState<(), ()> = ServerState::new();
    state.register(1, (), 0);
    let mut fails = |frame: Frame, bundle: u128| {
        state
            .process_server_frame(frame, bundle, true)
            .err()
            .unwrap()
    };
    assert_eq!(
        fails(frame_of(FrameKind::Prologue, 1, b"x"), 5),
        ServerFrameError::ProloguePayload
    );
    assert_eq!(
        fails(frame_of(FrameKind::End, 1, b"x"), 5),
        ServerFrameError::EndPayload
    );
    assert_eq!(
        fails(frame_of(FrameKind::Error, 1, b"\xff"), 5),
        ServerFrameError::ErrorNotUtf8
    );
    assert_eq!(
        fails(frame_of(FrameKind::Kill, 1, b""), 5),
        ServerFrameError::ReverseOnly {
            kind: FrameKind::Kill
        }
    );
    assert!(state
        .process_server_frame(frame_of(FrameKind::Data, 1, b"x"), 5, true)
        .is_ok());
    assert_eq!(
        state
            .process_server_frame(frame_of(FrameKind::Data, 1, b"y"), 6, true)
            .err()
            .unwrap(),
        ServerFrameError::BundleChanged {
            registration_id: 1,
            from: 5,
            to: 6
        }
    );
}

#[test]
fn terminal_errors_reach_the_registrant() {
    let mut state: ServerState<&str, ()> = ServerState::new();
    state.register(1, "handle", 3);
    match state
        .process_server_frame(frame_of(FrameKind::Error, 1, "größer".as_bytes()), 5, false)
        .unwrap()
    {
        FrameAction::Fail {
            pending, message, ..
        } => {
            assert_eq!(pending.handle, "handle");
            assert_eq!(message, "größer");
        }
        _ => panic!("the response failed"),
    }
    assert!(matches!(
        state
            .process_server_frame(frame_of(FrameKind::Error, 1, b""), 5, false)
            .unwrap(),
        FrameAction::Reset
    ));
}

#[test]
fn too_much_held_back_drops_the_response() {
    let mut state: ServerState<(), ()> = ServerState::new();
    state.register(1, (), 0);
    for _ in 0..MAX_DEFERRED_RESPONSE_FRAMES {
        assert!(matches!(
            state.process_server_frame(frame_of(FrameKind::Data, 1, b""), 5, true),
            Ok(FrameAction::Deferred)
        ));
    }
    assert!(matches!(
        state.process_server_frame(frame_of(FrameKind::Data, 1, b""), 5, true),
        Ok(FrameAction::Overflow { .. })
    ));
    assert!(matches!(
        state.process_server_frame(frame_of(FrameKind::Prologue, 1, b""), 5, true),
        Ok(FrameAction::Reset)
    ));
}

#[test]
fn failed_delivery_resets_the_response() {
    let mut state: ServerState<(), ()> = ServerState::new();
    let mut task = DeliveryTask::single(1, b"x".to_vec());
    assert!(matches!(
        task.next(&mut state, true),
        DeliveryStep::Deliver { .. }
    ));
    assert!(matches!(task.next(&mut state, false), DeliveryStep::Reset));
}

#[test]
fn removed_instances_refuse_responses_for_a_while() {
    let mut state: ServerState<(), ()> = ServerState::new();
    state.register(1, (), 0);
    state.register(2, (), 0);
    assert!(state.associate_instance(1, &instance(1), 0).is_ok());
    assert!(state.associate_instance(2, &instance(1), 0).is_ok());
    let removed = state.cancel_instance_streams(&instance(1), 10);
    let ids: Vec<u128> = removed.iter().map(|(id, _)| *id).collect();
    assert_eq!(ids, vec![1, 2]);
    assert!(removed.iter().all(|(_, slot)| slot.pending.is_some()));
    state.register(3, (), 11);
    assert!(state
        .associate_instance(3, &instance(1), 10 + TOMBSTONE_TTL - 1)
        .is_err());
    state.register(4, (), 11);
    assert!(state
        .associate_instance(4, &instance(1), 10 + TOMBSTONE_TTL)
        .is_ok());
    state.cancel_instance_streams(&instance(1), 20);
    state.clear_instance_tombstone(&instance(1));
    assert!(state.associate_instance(5, &instance(1), 21).is_ok());
}

#[test]
fn failed_connection_takes_its_bundle_down() {
    let mut state: ServerState<(), ()> = ServerState::new();
    assert_eq!(state.register_server_connection_bundle(1, 5), Ok(()));
    assert_eq!(state.register_server_connection_bundle(2, 5), Ok(()));
    assert_eq!(state.register_server_connection_bundle(3, 6), Ok(()));
    assert_eq!(state.register_server_connection_bundle(1, 6), Err(5));
    let mut delivered = Vec::new();
    let mut resets = 0;
    for id in [10, 11] {
        state.register(id, (), 0);
        process(
            &mut state,
            frame_of(FrameKind::Prologue, id, b""),
            false,
            &mut delivered,
            &mut resets,
        );
    }
    state.register(12, (), 0);
    let gone = state.fail_server_connection(2);
    let mut ids: Vec<u128> = gone.iter().map(|(id, _)| *id).collect();
    ids.sort();
    assert_eq!(ids, vec![10, 11]);
    assert!(state.active(10).is_none());
    assert!(state.fail_server_connection(1).is_empty());
    assert!(matches!(
        state.process_server_frame(frame_of(FrameKind::Prologue, 12, b""), 6, false),
        Ok(FrameAction::Open { .. })
    ));
}

#[test]
fn server_announces_where_to_respond() {
    let mut server: QuicResponseServer<(), ()> =
        QuicResponseServer::new(b"abc", "0.0.0.0:0", 0, "127.0.0.1:4242", &env())
            .ok()
            .unwrap();
    let info = server.register_response("request-1", (), 0);
    assert_eq!(info.version, PROTOCOL_VERSION);
    assert_eq!(info.address, "127.0.0.1:4242");
    assert_eq!(info.request_id, "request-1");
    assert_eq!(info.frontend_id, server.frontend_id);
    assert_eq!(info.frontend_id.len(), 36);
    assert_eq!(
        info.certificate_sha256,
        "ba7816bf8f01cfea414140de5dae2223b00361a396177a9cb410ff61f20015ad"
    );
    let other = server.register_response("request-2", (), 0);
    assert_ne!(info.registration_id, other.registration_id);
    assert!(server
        .cancel_response(info.registration_id)
        .pending
        .is_some());
    assert!(server
        .cancel_response(info.registration_id)
        .pending
        .is_none());
    let named: QuicResponseServer<(), ()> =
        QuicResponseServer::new_with_config(b"abc", "host:1", 1, "x", &config(1, 1, false));
    assert_eq!(named.advertised_address, "host:1");
}

#[test]
fn ids_are_written_with_hyphens() {
    assert_eq!(
        format_id(0x0123_4567_89ab_cdef_0011_2233_4455_6677),
        "01234567-89ab-cdef-0011-223344556677"
    );
    assert_eq!(
        format_id(uuid::Uuid::nil().as_u128()),
        uuid::Uuid::nil().to_string()
    );
}

#[test]
fn connection_info_is_checked() {
    let described = || QuicResponseConnectionInfo {
        version: PROTOCOL_VERSION,
        address: "127.0.0.1:1".to_string(),
        frontend_id: "f".to_string(),
        registration_id: 77,
        request_id: "r".to_string(),
        certificate_sha256: "c".to_string(),
    };
    let info = QuicResponseConnectionInfo::into_connection_info("{}".to_string());
    assert_eq!(info.transport, TRANSPORT_NAME);
    assert_eq!(info.transport, "quic-response");
    assert_eq!(QuicResponseConnectionInfo::described_by(&info), Ok("{}"));
    assert_eq!(registration_id(&info, Some(&described())), Some(77));
    assert_eq!(registration_id(&info, None), None);
    let other = ConnectionInfo {
        transport: "tcp_server".to_string(),
        info: "{}".to_string(),
    };
    assert_eq!(
        QuicResponseConnectionInfo::described_by(&other),
        Err(ConnectionInfoError::WrongTransport)
    );
    assert_eq!(registration_id(&other, Some(&described())), None);
    assert!(described().try_from().is_ok());
    let mut old = described();
    old.version = 1;
    assert_eq!(
        old.try_from().err(),
        Some(ConnectionInfoError::UnsupportedVersion { version: 1 })
    );
    let key = ConnectionKey::for_request(&described(), "r").unwrap();
    assert_eq!(key.address, "127.0.0.1:1");
    assert!(ConnectionKey::for_request(&described(), "other").is_none());
}

#[test]
fn lanes_are_chosen_by_the_request() {
    for lanes in [1, 4, 64] {
        let expected = xxhash_rust::xxh3::xxh3_64(b"request-1") as usize % lanes;
        assert_eq!(lane_index("request-1", lanes), expected);
    }
    assert_eq!(pick_lane(10, 4), 2);
    assert!((0..100).any(|i| lane_index(&format!("r{i}"), 8) != lane_index("r0", 8)));
}

#[test]
fn bundles_spread_lanes_over_connections() {
    let plan = connect(&config(2, 5, false));
    assert_eq!(plan.connections, 2);
    let connections: Vec<usize> = plan.lanes.iter().map(|lane| lane.connection).collect();
    assert_eq!(connections, vec![0, 1, 0, 1, 0]);
    let plan = connect(&config(2, 2, true));
    assert_eq!(plan.connections, 3);
    assert_eq!(
        plan.lanes[1],
        LanePlan {
            index: 1,
            connection: 1,
            priority_connection: Some(2)
        }
    );
}

#[test]
fn pool_replaces_only_bundles_that_cannot_be_used() {
    let key = |address: &str| ConnectionKey {
        address: address.to_string(),
        frontend_id: "f".to_string(),
        certificate_sha256: "c".to_string(),
    };
    let mut pool: QuicResponseClientPool<u8> = QuicResponseClientPool::from_env(&env())
        .ok()
        .unwrap();
    assert!(!pool.reuse(&key("a"), true));
    pool.publish(key("a"), 1);
    pool.publish(key("b"), 2);
    assert!(pool.reuse(&key("a"), true));
    assert_eq!(pool.connection(&key("a")), Some(&1));
    assert!(!pool.reuse(&key("a"), false));
    assert_eq!(pool.connection(&key("a")), None);
    pool.publish(key("b"), 3);
    assert_eq!(pool.connection(&key("b")), Some(&3));
}

#[test]
fn sender_puts_its_first_frames_on_the_priority_lane() {
    let mut sender = QuicResponseSender::new(9, true);
    assert_eq!(
        sender.send(b"early".to_vec(), 0).err(),
        Some(SendError::NotOpen)
    );
    let prologue = sender.send_prologue(None, 0).unwrap();
    assert_eq!(
        (prologue.frame.kind, prologue.lane),
        (FrameKind::Prologue, LaneChoice::Priority)
    );
    sender.prologue_enqueued(false);
    assert_eq!(
        sender.send_prologue(None, 0).err(),
        Some(SendError::PrologueAlreadySent)
    );
    let first = sender.send(b"a".to_vec(), 0).unwrap();
    assert_eq!(
        (first.frame.kind, first.lane),
        (FrameKind::FirstData, LaneChoice::Priority)
    );
    let second = sender.send(b"b".to_vec(), 0).unwrap();
    assert_eq!(
        (second.frame.kind, second.lane),
        (FrameKind::Data, LaneChoice::Ordered)
    );
    let closing = sender.finish(0);
    assert_eq!(closing.len(), 1);
    assert_eq!(closing[0].frame.kind, FrameKind::End);
    sender.end_enqueued();
    assert!(sender.finish(0).is_empty());
    assert!(sender.abandon(0).frames.is_empty());
}

#[test]
fn empty_response_ends_on_both_lanes() {
    let mut sender = QuicResponseSender::new(9, true);
    sender.prologue_enqueued(false);
    let closing = sender.finish(0);
    let kinds: Vec<FrameKind> = closing.iter().map(|out| out.frame.kind).collect();
    assert_eq!(kinds, vec![FrameKind::PriorityEnd, FrameKind::End]);
    let abandoned = sender.abandon(0);
    assert!(!abandoned.forget);
    assert_eq!(abandoned.frames.len(), 2);
    assert!(QuicResponseSender::new(9, false).abandon(0).forget);
}

#[test]
fn sender_reports_errors_and_refuses_large_payloads() {
    let mut sender = QuicResponseSender::new(9, false);
    let error = sender.send_prologue(Some("größer".to_string()), 0).unwrap();
    assert_eq!(error.frame.kind, FrameKind::Error);
    assert_eq!(error.frame.payload, "größer".as_bytes());
    assert_eq!(error.lane, LaneChoice::Ordered);
    sender.prologue_enqueued(true);
    assert_eq!(
        sender.send(b"x".to_vec(), 0).err(),
        Some(SendError::NotOpen)
    );
    let mut open = QuicResponseSender::new(9, false);
    open.prologue_enqueued(false);
    assert_eq!(
        open.send(vec![0; MAX_FRAME_PAYLOAD + 1], 0).err(),
        Some(SendError::PayloadTooLarge {
            len: MAX_FRAME_PAYLOAD + 1
        })
    );
}

#[test]
fn frontend_controls_reach_their_response() {
    let mut contexts: ClientContexts<&str> = ClientContexts::new();
    contexts.insert(1, "one");
    assert_eq!(
        contexts.control(&frame_of(FrameKind::Stop, 1, b"")),
        Ok(ControlAction::Stop { count: true })
    );
    assert_eq!(
        contexts.control(&frame_of(FrameKind::Reset, 1, b"")),
        Ok(ControlAction::Kill { count: false })
    );
    assert_eq!(
        contexts.control(&frame_of(FrameKind::Kill, 2, b"")),
        Ok(ControlAction::Ignore)
    );
    assert_eq!(
        contexts.control(&frame_of(FrameKind::Stop, 1, b"x")),
        Err(ControlError::Payload)
    );
    assert_eq!(
        contexts.control(&frame_of(FrameKind::Data, 1, b"")),
        Err(ControlError::ForwardOnly {
            kind: FrameKind::Data
        })
    );
    assert_eq!(contexts.handle(1), Some(&"one"));
}

#[test]
fn written_batches_end_responses_and_failures_kill_the_rest_once() {
    let mut contexts: ClientContexts<&str> = ClientContexts::new();
    contexts.insert(1, "one");
    contexts.insert(2, "two");
    contexts.insert(3, "three");
    contexts.control(&frame_of(FrameKind::Stop, 3, b"")).unwrap();
    contexts.batch_written(&[
        frame_of(FrameKind::End, 1, b""),
        frame_of(FrameKind::Data, 2, b"x"),
    ]);
    assert_eq!(contexts.handle(1), None);
    assert!(contexts.is_healthy(&[false, false]));
    assert!(!contexts.is_healthy(&[false, true]));
    let mut killed = contexts.fail().unwrap();
    killed.sort();
    assert_eq!(killed, vec![(2, "two", true), (3, "three", false)]);
    assert!(contexts.fail().is_none());
    assert!(!contexts.is_healthy(&[]));
}

#[test]
fn batches_are_written_as_their_wire_form() {
    let batch = vec![
        frame_of(FrameKind::Data, 1, b"abc"),
        frame_of(FrameKind::End, 1, b""),
    ];
    let chunks = write_chunks(&batch);
    assert_eq!(chunks.len(), 3);
    assert_eq!(chunks[0], batch[0].header());
    assert_eq!(chunks[1], b"abc");
    assert_eq!(chunks[2], batch[1].header());
}

#[test]
fn lanes_open_with_their_bundle() {
    assert_eq!(lane_bundle(&frame_of(FrameKind::Bundle, 4, b"")), Some(4));
    assert_eq!(lane_bundle(&frame_of(FrameKind::Bundle, 4, b"x")), None);
    assert_eq!(lane_bundle(&frame_of(FrameKind::Data, 4, b"")), None);
}

#[test]
fn monitors_tell_the_worker_what_happened() {
    let mut monitor = ResponseMonitor::new();
    assert_eq!(
        monitor.react(MonitorEvent::Stopped),
        (Some(FrameKind::Stop), true)
    );
    assert!(monitor.stop_sent);
    assert_eq!(
        monitor.react(MonitorEvent::Closed),
        (Some(FrameKind::Reset), false)
    );
    assert_eq!(
        monitor.react(MonitorEvent::Killed),
        (Some(FrameKind::Kill), false)
    );
    assert_eq!(monitor.react(MonitorEvent::Cancelled), (None, false));
}

#[test]
fn frames_tell_when_they_were_made() {
    let mut sender = QuicResponseSender::new(9, true);
    let prologue = sender.send_prologue(None, 5).unwrap().frame;
    assert_eq!((prologue.queued_at, prologue.diagnostic_kind), (5, Some("prologue")));
    sender.prologue_enqueued(false);
    let first = sender.send(b"a".to_vec(), 6).unwrap().frame;
    assert_eq!((first.queued_at, first.diagnostic_kind), (6, Some("first_data")));
    let second = sender.send(b"b".to_vec(), 7).unwrap().frame;
    assert_eq!((second.queued_at, second.diagnostic_kind), (7, None));
    for out in sender.abandon(8).frames {
        assert_eq!((out.frame.queued_at, out.frame.diagnostic_kind), (8, None));
    }
}
