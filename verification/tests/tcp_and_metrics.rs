use dynamo_core::instances::EndpointInstanceId;
use dynamo_core::metrics::{
    as_i64, update_transport_stats, Registrations, TrackedConnections, TransportStats,
};
use dynamo_core::network::{ConnectionInfo, ControlMessage, StreamType};
use dynamo_core::tcp::client::{
    connect_step, read_request_stream, server_name_text, tls_mode, tls_server_name, CallbackError,
    ConnectAction, ConnectEvent, InvalidServerName, Notice, ReadAction, ReadEvent, TcpClient,
    TlsMode,
};
use dynamo_core::tcp::info::{CallHomeHandshake, TcpStreamConnectionInfo, TCP_TRANSPORT};
use dynamo_core::tcp::server::{
    choose_interface, choose_local_address, send_requests, HandshakeError, LocalAddress,
    SendAction, SendEvent, ServerOptions, TcpStreamServer, TOMBSTONE_TTL,
};
use prometheus::{IntCounter, Registry};

fn instance() -> EndpointInstanceId {
    EndpointInstanceId {
        namespace: "n".to_string(),
        component: "c".to_string(),
        endpoint: "e".to_string(),
        instance_id: 1,
    }
}

fn server() -> TcpStreamServer<&'static str> {
    TcpStreamServer::new("127.0.0.1:4000".to_string())
}

#[test]
fn bidirectional_request_callback_finds_its_request() {
    let mut server = server();
    let info = server.register_request("context", "handle", 0);
    assert_eq!(info.address, "127.0.0.1:4000");
    assert_eq!(info.context, "context");
    assert_eq!(info.subject.len(), 36);
    let handshake = TcpClient::create_request_stream(&info, "context").unwrap();
    let request = server.state.process_stream(&handshake).ok().unwrap();
    assert_eq!(request.handle, "handle");
    assert_eq!(request.send_buffer_count, 1);
    assert_eq!(
        server.state.process_stream(&handshake).err(),
        Some(HandshakeError::UnknownSubject)
    );
    assert_eq!(
        server
            .state
            .process_stream(&CallHomeHandshake {
                subject: info.subject,
                stream_type: StreamType::Response,
            })
            .err(),
        Some(HandshakeError::ResponseUnsupported)
    );
}

#[test]
fn rejects_wrong_stream_type_and_context_before_connecting() {
    let info = |context: &str, stream_type: StreamType| TcpStreamConnectionInfo {
        address: "127.0.0.1:1".to_string(),
        subject: "subject".to_string(),
        context: context.to_string(),
        stream_type,
    };
    assert_eq!(
        TcpClient::create_request_stream(&info("context", StreamType::Response), "context").err(),
        Some(CallbackError::NotARequestStream)
    );
    assert_eq!(
        TcpClient::create_request_stream(&info("different", StreamType::Request), "context").err(),
        Some(CallbackError::ContextMismatch)
    );
}

#[test]
fn callback_info_is_checked() {
    let info = TcpStreamConnectionInfo::into_connection_info("{}".to_string());
    assert_eq!(info.transport, TCP_TRANSPORT);
    assert_eq!(info.transport, "tcp_server");
    assert_eq!(TcpStreamConnectionInfo::described_by(&info), Some("{}"));
    assert_eq!(
        TcpStreamConnectionInfo::described_by(&ConnectionInfo {
            transport: "quic-response".to_string(),
            info: "{}".to_string(),
        }),
        None
    );
}

#[test]
fn tcp_tls_connector_supports_plaintext_insecure_and_ca_modes() {
    assert!(matches!(
        tls_mode(None, false, false),
        TlsMode::Plaintext { unexpected: false }
    ));
    assert!(matches!(
        tls_mode(None, false, true),
        TlsMode::Plaintext { unexpected: true }
    ));
    assert!(matches!(
        tls_mode(None, true, false),
        TlsMode::Tls {
            ca: None,
            insecure: true
        }
    ));
    assert!(matches!(
        tls_mode(Some("/ca.pem".to_string()), false, false),
        TlsMode::Tls { ca: Some(path), insecure: false } if path == "/ca.pem"
    ));
}

#[test]
fn server_name_is_the_host() {
    let none = || None::<String>;
    assert_eq!(server_name_text(none(), "host:80", none()), "host");
    assert_eq!(server_name_text(none(), "a:b:80", none()), "a:b");
    assert_eq!(server_name_text(none(), "host", none()), "host");
    assert_eq!(
        server_name_text(none(), "[::1]:80", Some("::1".to_string())),
        "::1"
    );
    assert_eq!(
        server_name_text(Some("name".to_string()), "host:80", Some("x".to_string())),
        "name"
    );
}

#[test]
fn server_name_is_one_that_tls_takes() {
    let none = || None::<String>;
    assert_eq!(
        tls_server_name(none(), "host.example:80", none()),
        Ok("host.example".to_string())
    );
    assert_eq!(
        tls_server_name(none(), "[::1]:80", Some("::1".to_string())),
        Ok("::1".to_string())
    );
    assert_eq!(
        tls_server_name(Some("no name".to_string()), "host:80", none()),
        Err(InvalidServerName)
    );
    assert_eq!(tls_server_name(none(), ":80", none()), Err(InvalidServerName));
}

#[test]
fn dialling_is_repeated_only_for_want_of_a_local_address() {
    assert_eq!(connect_step(ConnectEvent::Connected), ConnectAction::Use);
    assert_eq!(
        connect_step(ConnectEvent::AddressNotAvailable),
        ConnectAction::RetryAfter(200_000_000)
    );
    assert_eq!(connect_step(ConnectEvent::Failed), ConnectAction::GiveUp);
}

#[test]
fn request_stream_ends_as_its_events_say() {
    let ends = |event: ReadEvent| match read_request_stream(event) {
        ReadAction::Finish { notice, cancelled } => (notice, cancelled),
        ReadAction::Deliver(_) => panic!("the stream goes on"),
    };
    assert!(matches!(
        read_request_stream(ReadEvent::Data(vec![1])),
        ReadAction::Deliver(data) if data == vec![1]
    ));
    assert_eq!(ends(ReadEvent::Killed), (Notice::Nothing, false));
    assert_eq!(ends(ReadEvent::Stopped), (Notice::Nothing, false));
    assert_eq!(ends(ReadEvent::ReceiverClosed), (Notice::Nothing, false));
    assert_eq!(
        ends(ReadEvent::Control(ControlMessage::Sentinel)),
        (Notice::Nothing, false)
    );
    assert_eq!(
        ends(ReadEvent::Control(ControlMessage::Stop)),
        (Notice::Stop, true)
    );
    assert_eq!(
        ends(ReadEvent::Control(ControlMessage::Kill)),
        (Notice::Kill, true)
    );
    assert_eq!(ends(ReadEvent::InvalidControl), (Notice::Kill, true));
    assert_eq!(ends(ReadEvent::UnexpectedMessage), (Notice::Kill, true));
    assert_eq!(ends(ReadEvent::ReadFailed), (Notice::Kill, true));
    assert_eq!(ends(ReadEvent::EndOfStream), (Notice::Kill, true));
}

#[test]
fn requests_are_written_until_something_ends_them() {
    assert!(matches!(
        send_requests(SendEvent::Frame(3)),
        SendAction::Write(3)
    ));
    assert!(matches!(
        send_requests::<u8>(SendEvent::Killed),
        SendAction::Close(Some(ControlMessage::Kill))
    ));
    assert!(matches!(
        send_requests::<u8>(SendEvent::Stopped),
        SendAction::Close(Some(ControlMessage::Stop))
    ));
    assert!(matches!(
        send_requests::<u8>(SendEvent::Exhausted),
        SendAction::Close(Some(ControlMessage::Sentinel))
    ));
    assert!(matches!(
        send_requests::<u8>(SendEvent::WriteFailed),
        SendAction::Close(None)
    ));
}

#[test]
fn falls_back_to_loopback_when_no_routable_ip_exists() {
    assert_eq!(
        choose_local_address(LocalAddress::NotFound, LocalAddress::NotFound, "127.0.0.1"),
        Some("127.0.0.1")
    );
    assert_eq!(
        choose_local_address(LocalAddress::NotFound, LocalAddress::Found("::2"), "lo"),
        Some("::2")
    );
    assert_eq!(
        choose_local_address(LocalAddress::Found("10.0.0.1"), LocalAddress::Failed, "lo"),
        Some("10.0.0.1")
    );
    assert_eq!(
        choose_local_address(LocalAddress::NotFound, LocalAddress::Failed, "lo"),
        None
    );
    assert_eq!(
        choose_local_address(LocalAddress::Failed, LocalAddress::Found("::2"), "lo"),
        None
    );
}

#[test]
fn named_interface_has_its_last_address() {
    let interfaces = vec![
        ("eth0".to_string(), 1),
        ("lo".to_string(), 2),
        ("eth0".to_string(), 3),
    ];
    assert_eq!(choose_interface(&interfaces, "eth0"), Some(3));
    assert_eq!(choose_interface(&interfaces, "lo"), Some(2));
    assert_eq!(choose_interface(&interfaces, "eth1"), None);
}

#[test]
fn server_options_default_to_any_port() {
    assert_eq!(server().local_address(), "127.0.0.1:4000");
    let plain = TcpStreamServer::<()>::options_builder().build();
    assert_eq!((plain.port, plain.interface), (0, None));
    let set = ServerOptions::builder()
        .port(80)
        .interface(Some("eth0".to_string()))
        .build();
    assert_eq!((set.port, set.interface.as_deref()), (80, Some("eth0")));
    assert_eq!(ServerOptions::default().port, 0);
    assert_eq!(set.clone().interface, set.interface);
}

#[test]
fn tombstone_rejects_late_request_registration_association() {
    let mut server = server();
    let id = instance();
    assert!(server.cancel_instance_streams(&id, 0).is_empty());
    let info = server.register_request("context", "handle", 64);
    let refused = server
        .associate_request_instance(&info.subject, &id, TOMBSTONE_TTL - 1)
        .err()
        .unwrap();
    assert_eq!(refused.unwrap().handle, "handle");
    assert!(server.cancel_send_stream(&info.subject).is_none());
}

#[test]
fn removed_instance_takes_its_streams_along() {
    let mut server = server();
    let id = instance();
    let first = server.register_request("context", "first", 64);
    let second = server.register_request("context", "second", 64);
    for subject in [&first.subject, &first.subject, &second.subject] {
        assert!(server
            .associate_request_instance(subject, &id, 0)
            .is_ok());
    }
    let cancelled = server.cancel_instance_streams(&id, 1);
    let mut subjects: Vec<&String> = cancelled.iter().map(|(subject, _)| subject).collect();
    subjects.sort();
    let mut expected = vec![&first.subject, &second.subject];
    expected.sort();
    assert_eq!(subjects, expected);
    assert!(server.cancel_send_stream(&first.subject).is_none());
    server.clear_instance_tombstone(&id);
    assert!(server
        .associate_request_instance("other", &id, 2)
        .is_ok());
}

#[test]
fn registers_metrics_and_callback_once_per_registry() {
    let first = Registry::new();
    let second = Registry::new();
    let registries = [&first, &second];
    let ids: Vec<usize> = vec![1, 2];
    let mut callbacks = [0, 0];
    let mut registrations = Registrations::new();
    for index in [0, 0, 1] {
        if registrations.ensure_registered(ids[index], &ids) {
            let batches = IntCounter::new(
                "dynamo_quic_response_batches_total",
                "Vectored QUIC response writes",
            )
            .unwrap();
            registries[index].register(Box::new(batches)).unwrap();
            callbacks[index] += 1;
        }
    }

    for (registry, callbacks) in registries.iter().zip(callbacks) {
        let names = registry
            .gather()
            .into_iter()
            .map(|family| family.name().to_string())
            .collect::<Vec<_>>();
        assert!(names
            .iter()
            .any(|name| name == "dynamo_quic_response_batches_total"));
        assert_eq!(callbacks, 1);
    }
    // A registry that is gone leaves its place to another.
    assert!(!registrations.ensure_registered(2, &[2]));
    assert!(registrations.ensure_registered(1, &[1, 2]));
}

#[test]
fn transport_counts_add_up_without_overflow() {
    let one = TransportStats {
        udp_tx: 1,
        udp_rx: 2,
        lost_packets: 3,
        lost_bytes: u64::MAX,
        congestion_events: 5,
        stream_data_blocked: 6,
        rtt_us: 7,
    };
    let gauges = update_transport_stats(&[one, one]);
    assert_eq!((gauges.udp_tx, gauges.udp_rx), (2, 4));
    assert_eq!(gauges.lost_packets, 6);
    assert_eq!(gauges.lost_bytes, i64::MAX);
    assert_eq!(gauges.congestion_events, 10);
    assert_eq!((gauges.stream_data_blocked, gauges.rtt_us), (12, 14));
    assert_eq!(update_transport_stats(&[]).rtt_us, 0);
    assert_eq!(as_i64(7), 7);
    assert_eq!(as_i64(1 << 63), i64::MAX);
}

#[test]
fn closed_connections_are_no_longer_known() {
    let mut known = TrackedConnections::new();
    known.track_connection(4);
    known.track_connection(5);
    assert!(known.is_connection_tracked(4));
    known.connection_closed(4);
    assert!(!known.is_connection_tracked(4));
    assert!(known.is_connection_tracked(5));
}
