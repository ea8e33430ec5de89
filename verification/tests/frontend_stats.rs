use axum::http::{HeaderMap, HeaderValue};
use dynamo_core::frontend_stats::{
    publish, route_docs, stream_opening, stream_step, PylonRequestIdentity, PylonRequestStats,
    StatsEvent, StreamAction, StreamEvent, DEFAULT_CHANNEL_CAPACITY, INPUT_TOKENS_HEADER,
    MODEL_HEADER, PING_LINE, REQUEST_ID_HEADER, STATS_PATH,
};

fn headers(request_id: &'static str, model: &'static str) -> HeaderMap {
    let mut headers = HeaderMap::new();
    headers.insert(REQUEST_ID_HEADER, HeaderValue::from_static(request_id));
    headers.insert(MODEL_HEADER, HeaderValue::from_static(model));
    headers.insert(INPUT_TOKENS_HEADER, HeaderValue::from_static("3"));
    headers
}

fn identity() -> PylonRequestIdentity {
    PylonRequestIdentity {
        request_id: "pylon-id".to_string(),
        model: "external-model".to_string(),
        input_tokens: 3,
    }
}

#[test]
fn identity_is_read_from_headers() {
    assert_eq!(
        PylonRequestIdentity::from_headers(&headers("pylon-id", "external-model")),
        Some(identity())
    );
    assert_eq!(
        PylonRequestIdentity::from_headers(&headers("  pylon-id\t", " external-model ")),
        Some(identity())
    );
}

#[test]
fn identity_requires_all_valid_tunnel_headers() {
    let mut missing_model = HeaderMap::new();
    missing_model.insert(REQUEST_ID_HEADER, HeaderValue::from_static("pylon-id"));
    missing_model.insert(INPUT_TOKENS_HEADER, HeaderValue::from_static("3"));
    assert_eq!(PylonRequestIdentity::from_headers(&missing_model), None);
    assert_eq!(
        PylonRequestIdentity::from_headers(&headers("pylon-id", "   ")),
        None
    );
    let mut invalid_tokens = headers("pylon-id", "model");
    invalid_tokens.insert(INPUT_TOKENS_HEADER, HeaderValue::from_static("three"));
    assert_eq!(PylonRequestIdentity::from_headers(&invalid_tokens), None);
}

#[test]
fn identity_needs_readable_text() {
    let mut opaque = headers("pylon-id", "model");
    opaque.insert(MODEL_HEADER, HeaderValue::from_bytes(b"caf\xc3\xa9").unwrap());
    assert_eq!(PylonRequestIdentity::from_headers(&opaque), None);
}

#[test]
fn request_stats_are_cumulative_and_finish_once() {
    let mut request = PylonRequestStats::new(&identity());
    let mut events: Vec<StatsEvent> = [0, 2, 3, 0]
        .into_iter()
        .filter_map(|count| request.observe(count))
        .collect();
    events.push(request.finish());

    assert_eq!(
        events,
        vec![
            StatsEvent {
                tokens_processed: Some(3),
                tokens_generated: None,
                finished: false,
            },
            StatsEvent {
                tokens_processed: None,
                tokens_generated: Some(2),
                finished: false,
            },
            StatsEvent {
                tokens_processed: None,
                tokens_generated: Some(5),
                finished: false,
            },
            StatsEvent {
                tokens_processed: Some(3),
                tokens_generated: Some(5),
                finished: true,
            },
        ]
    );
}

#[test]
fn first_tokens_come_with_the_processed_ones() {
    let mut request = PylonRequestStats::new(&identity());
    let mut events: Vec<StatsEvent> = [2, 3, 4]
        .into_iter()
        .filter_map(|count| request.observe(count))
        .collect();
    events.push(request.finish());
    let generated: Vec<Option<u64>> = events.iter().map(|event| event.tokens_generated).collect();
    assert_eq!(generated, vec![Some(2), Some(5), Some(9), Some(9)]);
    let processed: Vec<Option<u64>> = events.iter().map(|event| event.tokens_processed).collect();
    assert_eq!(processed, vec![Some(3), None, None, Some(3)]);
    let finished: Vec<bool> = events.iter().map(|event| event.finished).collect();
    assert_eq!(finished, vec![false, false, false, true]);
}

#[test]
fn counter_saturation_still_emits_terminal_event() {
    let mut request = PylonRequestStats::new(&identity());
    request.tokens_processed = Some(3);
    request.tokens_generated = Some(u64::MAX - 1);
    let saturated = request.observe(usize::MAX).unwrap();
    assert_eq!(saturated.tokens_generated, Some(u64::MAX));
    assert!(!saturated.finished);
    assert_eq!(request.observe(1), None);
    let finished = request.finish();
    assert_eq!(finished.tokens_generated, Some(u64::MAX));
    assert!(finished.finished);
}

#[test]
fn events_become_lines_only_for_subscribers() {
    let event = StatsEvent {
        tokens_processed: Some(3),
        tokens_generated: None,
        finished: true,
    };
    assert_eq!(publish(&identity(), &event, 0), Ok(None));
    let line = publish(&identity(), &event, 1).unwrap().unwrap();
    assert_eq!(
        String::from_utf8(line).unwrap(),
        "{\"v\":1,\"type\":\"stats\",\"request_id\":\"pylon-id\",\"model\":\"external-model\",\
         \"tokens_processed\":3,\"finished\":true}\n"
    );
    assert_eq!(DEFAULT_CHANNEL_CAPACITY, 1024);
}

#[test]
fn frontend_registers_stats_without_the_unused_kv_route() {
    let routes = route_docs();

    assert!(routes.contains(&format!("GET {STATS_PATH}")));
    assert!(!routes.contains(&"GET /kv-cache/stats".to_string()));
}

#[test]
fn stream_is_ready_immediately_and_closes_on_shutdown() {
    assert_eq!(stream_opening(), PING_LINE.as_bytes());
    assert_eq!(PING_LINE, "{\"v\":1,\"type\":\"ping\"}\n");
    assert!(matches!(
        stream_step(StreamEvent::Shutdown),
        StreamAction::End
    ));
    assert!(matches!(
        stream_step(StreamEvent::Closed),
        StreamAction::End
    ));
    assert!(matches!(
        stream_step(StreamEvent::Lagged),
        StreamAction::Nothing
    ));
    assert!(matches!(
        stream_step(StreamEvent::Line(vec![7])),
        StreamAction::Send(line) if line == vec![7]
    ));
}

#[test]
fn idle_stream_emits_periodic_pings() {
    assert!(matches!(
        stream_step(StreamEvent::Idle),
        StreamAction::Send(line) if line == PING_LINE.as_bytes()
    ));
}
