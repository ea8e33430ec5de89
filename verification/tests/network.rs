use dynamo_core::network::{
    get_tcp_max_message_size, ConnectionInfo, Ingress, IngressError, NetworkStreamWrapper,
    RegisteredStream, RequestPlanePayloadCodec, SerdeIngressPayloadAdapter,
};
use std::sync::atomic::{AtomicBool, Ordering};
use std::sync::Arc;

#[test]
fn request_plane_payload_codec_configuration_defaults_to_msgpack() {
    assert_eq!(
        RequestPlanePayloadCodec::from_config_value(None),
        RequestPlanePayloadCodec::Msgpack
    );
    assert_eq!(
        RequestPlanePayloadCodec::from_config_value(Some("")),
        RequestPlanePayloadCodec::Msgpack
    );
    assert_eq!(
        RequestPlanePayloadCodec::from_config_value(Some("invalid")),
        RequestPlanePayloadCodec::Msgpack
    );
}

#[test]
fn request_plane_payload_codec_configuration_honors_explicit_overrides() {
    assert_eq!(
        RequestPlanePayloadCodec::from_config_value(Some("json")),
        RequestPlanePayloadCodec::Json
    );
    assert_eq!(
        RequestPlanePayloadCodec::from_config_value(Some("msgpack")),
        RequestPlanePayloadCodec::Msgpack
    );
}

#[test]
fn codec_is_settled_once() {
    let mut chosen = None;
    assert_eq!(
        RequestPlanePayloadCodec::configured(&mut chosen, Some("json")),
        RequestPlanePayloadCodec::Json
    );
    assert_eq!(
        RequestPlanePayloadCodec::configured(&mut chosen, Some("msgpack")),
        RequestPlanePayloadCodec::Json
    );
    assert_eq!(RequestPlanePayloadCodec::Json.name(), "json");
    assert_eq!(RequestPlanePayloadCodec::Msgpack.name(), "msgpack");
    assert_eq!(
        RequestPlanePayloadCodec::default(),
        RequestPlanePayloadCodec::Json
    );
    assert!(RequestPlanePayloadCodec::is_valid_config_value(Some("")));
    assert!(!RequestPlanePayloadCodec::is_valid_config_value(Some("xml")));
}

#[test]
fn message_size_falls_back_to_the_default() {
    assert_eq!(get_tcp_max_message_size(None), 32 * 1024 * 1024);
    assert_eq!(get_tcp_max_message_size(Some("ten")), 32 * 1024 * 1024);
    assert_eq!(get_tcp_max_message_size(Some("-1")), 32 * 1024 * 1024);
    assert_eq!(get_tcp_max_message_size(Some("+4096")), 4096);
    assert_eq!(get_tcp_max_message_size(Some("0")), 0);
}

type Cleanup = Box<dyn FnOnce()>;

fn dummy_conn_info() -> ConnectionInfo {
    ConnectionInfo {
        transport: "test".to_string(),
        info: "{}".to_string(),
    }
}

/// Giving a stream up without `into_parts()` must run the cleanup closure.
#[test]
fn drop_runs_cleanup() {
    let flag = Arc::new(AtomicBool::new(false));
    let flag_clone = flag.clone();

    let (_tx, rx) = tokio::sync::oneshot::channel::<Result<(), String>>();
    let cleanup: Cleanup = Box::new(move || flag_clone.store(true, Ordering::SeqCst));
    let stream = RegisteredStream::new(dummy_conn_info(), rx).with_cleanup(cleanup);

    if let Some(cleanup) = stream.abandon() {
        cleanup();
    }
    assert!(
        flag.load(Ordering::SeqCst),
        "cleanup must fire when RegisteredStream is dropped"
    );
}

/// `into_parts()` must disarm the cleanup.
#[test]
fn into_parts_disarms_cleanup() {
    let flag = Arc::new(AtomicBool::new(false));
    let flag_clone = flag.clone();

    let (_tx, rx) = tokio::sync::oneshot::channel::<Result<(), String>>();
    let cleanup: Cleanup = Box::new(move || flag_clone.store(true, Ordering::SeqCst));
    let stream = RegisteredStream::new(dummy_conn_info(), rx).with_cleanup(cleanup);

    let (conn, provider) = stream.into_parts();
    drop(conn);
    drop(provider);

    assert!(
        !flag.load(Ordering::SeqCst),
        "into_parts() must disarm the cleanup closure"
    );
}

/// A stream with no cleanup configured must be given up cleanly.
#[test]
fn drop_without_cleanup_is_a_noop() {
    let (_tx, rx) = tokio::sync::oneshot::channel::<Result<(), String>>();
    let stream: RegisteredStream<_, Cleanup> = RegisteredStream::new(dummy_conn_info(), rx);
    assert!(stream.abandon().is_none());
}

#[test]
fn registered_stream_keeps_its_id() {
    let stream: RegisteredStream<u8, ()> = RegisteredStream::new(dummy_conn_info(), 1);
    assert_eq!(stream.registration_id(), None);
    assert_eq!(stream.with_registration_id(9).registration_id(), Some(9));
}

#[test]
fn responses_are_wrapped_and_errors_marked() {
    let adapter = SerdeIngressPayloadAdapter;
    assert_eq!(
        adapter.wrap(Some(5), false),
        NetworkStreamWrapper {
            data: Some(5),
            complete_final: false
        }
    );
    assert_eq!(
        adapter.wrap(None::<u8>, true),
        NetworkStreamWrapper {
            data: None,
            complete_final: true
        }
    );
    assert!(adapter.frame(vec![1], Some(true)).is_error);
    assert!(!adapter.frame(vec![1], Some(false)).is_error);
    assert!(!adapter.frame(vec![1], None).is_error);
}

#[test]
fn ingress_is_linked_to_its_segment() {
    let mut linked: Ingress<u8, u8, u8, SerdeIngressPayloadAdapter> =
        Ingress::link(1).ok().unwrap();
    assert_eq!(linked.attach(2), Err(IngressError::SegmentAlreadySet));
    let mut piped: Ingress<u8, u8, u8, SerdeIngressPayloadAdapter> =
        Ingress::for_pipeline(1).ok().unwrap();
    assert_eq!(piped.attach(2), Err(IngressError::SegmentAlreadySet));
}

#[test]
fn ingress_parts_are_set_once() {
    let mut ingress: Ingress<u8, u8, u8, ()> = Ingress::new_with_adapter(());
    assert!(ingress.metrics().is_none());
    assert_eq!(ingress.attach(1), Ok(()));
    assert_eq!(ingress.attach(2), Err(IngressError::SegmentAlreadySet));
    assert_eq!(ingress.add_metrics(3), Ok(()));
    assert_eq!(ingress.add_metrics(4), Err(IngressError::MetricsAlreadySet));
    assert_eq!(ingress.metrics(), Some(&3));
    assert_eq!(ingress.set_quic_response_client_pool(5), Ok(()));
    assert_eq!(
        ingress.set_quic_response_client_pool(6),
        Err(IngressError::ClientPoolAlreadySet)
    );
    ingress.quic_response_client_pool_or(7);
    assert_eq!(ingress.quic_response_client_pool(), Some(&5));
    let mut fresh: Ingress<u8, u8, u8, ()> = Ingress::new_with_adapter(());
    assert_eq!(fresh.quic_response_client_pool(), None);
    fresh.quic_response_client_pool_or(7);
    assert_eq!(fresh.quic_response_client_pool(), Some(&7));
}
