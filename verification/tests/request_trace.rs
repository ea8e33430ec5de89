use axum::http::HeaderMap;
use dynamo_core::request_trace::{
    capture_http_headers, capture_http_headers_with_list, create_handle,
    create_handle_with_config, http_header_capture_active, redact_media, unix_time_ms,
    CapturePolicy, ChatMessage, ChatRequest, ContentPart, MessageContent, PAYLOAD_ENDPOINT,
};
use dynamo_core::text_map::TextMap;

fn text_message(text: &str) -> ChatMessage {
    ChatMessage::User {
        content: MessageContent::Text(text.to_string()),
        name: None,
    }
}

fn user_parts(parts: Vec<ContentPart>) -> ChatMessage {
    ChatMessage::User {
        content: MessageContent::Array(parts),
        name: Some("ann".to_string()),
    }
}

fn request(messages: Vec<ChatMessage>) -> ChatRequest {
    ChatRequest {
        model: "m".to_string(),
        stream: None,
        messages,
        rest: String::new(),
    }
}

fn create_test_request(model: &str, store: bool) -> ChatRequest {
    ChatRequest {
        model: model.to_string(),
        stream: None,
        messages: vec![text_message("test")],
        rest: format!("{{\"store\":{store}}}"),
    }
}

fn parts_of(message: &ChatMessage) -> &Vec<ContentPart> {
    match message {
        ChatMessage::User {
            content: MessageContent::Array(parts),
            ..
        } => parts,
        ChatMessage::Tool {
            content: MessageContent::Array(parts),
            ..
        } => parts,
        other => panic!("no parts in {other:?}"),
    }
}

fn text_of(part: &ContentPart) -> &str {
    match part {
        ContentPart::Text(text) => text,
        other => panic!("no text in {other:?}"),
    }
}

#[test]
fn request_payload_records_emit_even_when_store_is_false() {
    let request = create_test_request("test-model", false);
    let handle = create_handle_with_config::<()>(&request, "test-id", true, true, None, 0);

    assert!(
        handle.is_some(),
        "request_payload records should create a handle even with store=false"
    );
}

#[test]
fn request_payload_records_disabled_skips_store_true_payloads() {
    let request = create_test_request("test-model", true);
    let handle = create_handle_with_config::<()>(&request, "test-id", true, false, None, 0);

    assert!(
        handle.is_none(),
        "request_payload records disabled should skip payloads even with store=true"
    );
}

#[test]
fn capture_http_headers_records_only_allowlisted() {
    let capture_list = vec!["x-request-id".to_string(), "nvcf-function-id".to_string()];

    let mut headers = HeaderMap::new();
    headers.insert("x-request-id", "abc-123".parse().unwrap());
    headers.insert("NVCF-Function-Id", "fn-9".parse().unwrap());
    headers.insert("authorization", "Bearer secret".parse().unwrap());

    let captured = capture_http_headers_with_list(&headers, &capture_list)
        .expect("allowlisted headers are captured");
    assert_eq!(
        captured.get("x-request-id").map(String::as_str),
        Some("abc-123")
    );
    assert_eq!(
        captured.get("nvcf-function-id").map(String::as_str),
        Some("fn-9")
    );
    assert!(
        !captured.contains_key("authorization"),
        "non-allowlisted header must never be captured"
    );
}

#[test]
fn capture_http_headers_empty_list_captures_nothing() {
    let mut headers = HeaderMap::new();
    headers.insert("x-request-id", "abc-123".parse().unwrap());

    assert!(
        capture_http_headers_with_list(&headers, &[]).is_none(),
        "empty allowlist must capture nothing"
    );
}

#[test]
fn capture_http_headers_joins_repeated_headers() {
    let capture_list = vec!["x-tag".to_string()];

    let mut headers = HeaderMap::new();
    headers.append("x-tag", "a".parse().unwrap());
    headers.append("x-tag", "b".parse().unwrap());

    let captured = capture_http_headers_with_list(&headers, &capture_list)
        .expect("repeated header is captured");
    assert_eq!(captured.get("x-tag").map(String::as_str), Some("a, b"));
}

#[test]
fn capture_http_headers_omits_repeated_empty_values() {
    let capture_list = vec!["x-tag".to_string()];

    let mut headers = HeaderMap::new();
    headers.append("x-tag", "".parse().unwrap());
    headers.append("x-tag", "".parse().unwrap());

    assert!(
        capture_http_headers_with_list(&headers, &capture_list).is_none(),
        "repeated empty values must be omitted, not joined into \", \""
    );
}

#[test]
fn capture_http_headers_skips_empty_values_when_joining() {
    let capture_list = vec!["x-tag".to_string()];

    let mut headers = HeaderMap::new();
    headers.append("x-tag", "".parse().unwrap());
    headers.append("x-tag", "tenant-a".parse().unwrap());

    let captured = capture_http_headers_with_list(&headers, &capture_list)
        .expect("non-empty value is captured");
    assert_eq!(captured.get("x-tag").map(String::as_str), Some("tenant-a"));
}

#[test]
fn capture_follows_the_policy_and_ignores_case() {
    let mut headers = HeaderMap::new();
    headers.insert("x-tag", "a".parse().unwrap());
    let mut policy = CapturePolicy {
        capture_enabled: true,
        emit_request_payload_records: true,
        http_header_capture_list: vec!["X-Tag".to_string(), "no such header".to_string()],
    };
    assert!(http_header_capture_active(&policy));
    let captured = capture_http_headers(&headers, &policy).unwrap();
    assert_eq!(captured.get("X-Tag").map(String::as_str), Some("a"));
    policy.capture_enabled = false;
    assert!(!http_header_capture_active(&policy));
    assert!(capture_http_headers(&headers, &policy).is_none());
    policy.capture_enabled = true;
    policy.http_header_capture_list.clear();
    assert!(!http_header_capture_active(&policy));
}

#[test]
fn redact_media_none_for_text_only() {
    let req = request(vec![text_message("hello")]);
    assert!(redact_media(&req).is_none());
}

#[test]
fn redact_media_none_for_text_parts_array() {
    let req = request(vec![user_parts(vec![ContentPart::Text("hi".to_string())])]);
    assert!(redact_media(&req).is_none());
}

#[test]
fn redact_media_replaces_user_image_url() {
    let req = request(vec![user_parts(vec![
        ContentPart::Text("describe".to_string()),
        ContentPart::ImageUrl("data:image/png;base64,SECRET".to_string()),
    ])]);
    let out = redact_media(&req).expect("media present");
    let parts = parts_of(&out.messages[0]);
    assert_eq!(text_of(&parts[0]), "describe");
    assert_eq!(text_of(&parts[1]), "[image_url omitted by audit]");
    assert!(!format!("{out:?}").contains("SECRET"));
    // the request itself is as it was
    assert!(matches!(
        &parts_of(&req.messages[0])[1],
        ContentPart::ImageUrl(url) if url == "data:image/png;base64,SECRET"
    ));
}

#[test]
fn redact_media_replaces_tool_media() {
    let req = request(vec![
        text_message("go"),
        ChatMessage::Tool {
            tool_call_id: "c1".to_string(),
            content: MessageContent::Array(vec![
                ContentPart::Text("result".to_string()),
                ContentPart::ImageUrl("data:image/png;base64,TOOLSECRET".to_string()),
            ]),
        },
    ]);
    let out = redact_media(&req).expect("tool media should be detected");
    let s = format!("{out:?}");
    assert!(!s.contains("TOOLSECRET"), "tool media leaked: {s}");
    assert!(s.contains("[image_url omitted by audit]"));
    assert!(s.contains("result"), "text sibling must survive");
}

#[test]
fn redact_media_labels_video_and_audio() {
    let req = request(vec![user_parts(vec![
        ContentPart::VideoUrl("data:video/mp4;base64,VSECRET".to_string()),
        ContentPart::AudioUrl("data:audio/wav;base64,ASECRET".to_string()),
    ])]);
    let out = redact_media(&req).expect("media present");
    let s = format!("{out:?}");
    assert!(s.contains("[video_url omitted by audit]"), "got {s}");
    assert!(s.contains("[audio omitted by audit]"), "got {s}");
    assert!(!s.contains("VSECRET"));
    assert!(!s.contains("ASECRET"));
}

#[test]
fn unknown_parts_are_redacted_and_redaction_is_final() {
    let req = request(vec![
        ChatMessage::Other("{\"role\":\"system\"}".to_string()),
        user_parts(vec![ContentPart::Other("{\"type\":\"input_file\"}".to_string())]),
    ]);
    let out = redact_media(&req).expect("media present");
    assert_eq!(
        text_of(&parts_of(&out.messages[1])[0]),
        "[unknown omitted by audit]"
    );
    assert!(matches!(&out.messages[0], ChatMessage::Other(raw) if raw == "{\"role\":\"system\"}"));
    assert!(redact_media(&out).is_none());
}

#[test]
fn create_handle_stores_redacted_request() {
    let req = request(vec![user_parts(vec![ContentPart::ImageUrl(
        "data:image/png;base64,HOOKSECRET".to_string(),
    )])]);

    let handle = create_handle_with_config::<()>(&req, "test-id", true, true, None, 0)
        .expect("payload handle should be created when capture is enabled");
    let stored = format!("{:?}", handle.request);

    assert!(
        !stored.contains("HOOKSECRET"),
        "raw media stored by the snapshot hook: {stored}"
    );
    assert!(
        stored.contains("[image_url omitted by audit]"),
        "got {stored}"
    );
}

#[test]
fn emit_publishes_one_combined_record_with_and_without_response() {
    let policy = CapturePolicy {
        capture_enabled: true,
        emit_request_payload_records: true,
        http_header_capture_list: vec![],
    };
    let mut req = create_test_request("test-model", true);
    req.stream = Some(true);
    let handle = create_handle(&req, "payload-test-req-ok", &policy, Some(7), 1_500_000).unwrap();
    assert!(handle.streaming());
    assert_eq!(handle.request_id(), "payload-test-req-ok");
    let (record, time) = handle.emit(Some("hello"));
    assert_eq!(record.request_id, "payload-test-req-ok");
    assert_eq!(record.endpoint, PAYLOAD_ENDPOINT);
    assert_eq!(record.endpoint, "openai.chat_completion");
    assert_eq!(record.model, "test-model");
    assert!(record.request.is_some());
    assert_eq!(record.response, Some("hello"));
    assert_eq!(record.http_request_headers, Some(7));
    assert!(record.payload_complete);
    assert!(record.payload_drop_reason.is_none());
    assert_eq!(time, 1);

    let handle = create_handle::<()>(&req, "payload-test-req-cancel", &policy, None, 0).unwrap();
    let (record, _) = handle.emit::<()>(None);
    assert_eq!(record.request_id, "payload-test-req-cancel");
    assert!(record.request.is_some());
    assert!(record.response.is_none());
}

#[test]
fn times_become_milliseconds() {
    assert_eq!(unix_time_ms(-1), 0);
    assert_eq!(unix_time_ms(999_999), 0);
    assert_eq!(unix_time_ms(1_700_000_000_123_456_789), 1_700_000_000_123);
    assert_eq!(unix_time_ms(i128::MAX), u64::MAX);
}

#[test]
fn redact_media_covers_responses_api_input_image() {
    let chat = request(vec![ChatMessage::User {
        content: MessageContent::Array(vec![
            ContentPart::Text("describe".to_string()),
            ContentPart::ImageUrl("data:image/png;base64,RSECRET".to_string()),
        ]),
        name: None,
    }]);

    let out = redact_media(&chat).expect("input_image must be media after conversion");
    let s = format!("{out:?}");
    assert!(!s.contains("RSECRET"), "responses-api image leaked: {s}");
    assert!(s.contains("[image_url omitted by audit]"), "got {s}");
    assert!(s.contains("describe"), "text sibling must survive: {s}");
}

#[test]
fn captured_headers_come_in_the_order_of_their_names() {
    let capture_list: Vec<String> = ["x-b", "x-c", "x-a", "x-b", "x-none"]
        .iter()
        .map(|name| name.to_string())
        .collect();
    let mut headers = HeaderMap::new();
    for (name, value) in [("x-c", "3"), ("x-a", "1"), ("x-b", "2")] {
        headers.insert(name, value.parse().unwrap());
    }
    let captured = capture_http_headers_with_list(&headers, &capture_list).unwrap();
    let pairs: Vec<(&str, &str)> = captured
        .entries()
        .iter()
        .map(|(name, value)| (name.as_str(), value.as_str()))
        .collect();
    assert_eq!(pairs, vec![("x-a", "1"), ("x-b", "2"), ("x-c", "3")]);
    assert_eq!(captured.len(), 3);
    assert!(!captured.is_empty());
    assert!(captured.get("x-none").is_none());
}

#[test]
fn text_map_is_sorted_and_keeps_the_last_value() {
    let mut map = TextMap::new();
    assert!(map.is_empty());
    for (key, value) in [("b", "1"), ("a", "2"), ("\u{e9}", "3"), ("b", "4"), ("", "5")] {
        map.insert(key.to_string(), value.to_string());
    }
    let keys: Vec<&str> = map.entries().iter().map(|(key, _)| key.as_str()).collect();
    assert_eq!(keys, vec!["", "a", "b", "\u{e9}"]);
    assert_eq!(map.get("b").map(String::as_str), Some("4"));
    assert!(map.contains_key(""));
    assert!(!map.contains_key("c"));
}
