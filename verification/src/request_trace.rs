//! Records of what clients sent, free of any media.

use crate::http_headers;
use crate::http_headers::{all_values, join_values};
use crate::seqs;
use crate::text;
use crate::text_map::TextMap;
use vstd::prelude::*;

verus! {

/// Context key for the allowlisted headers captured at the HTTP layer.
pub const HTTP_HEADERS_CONTEXT_KEY: &'static str = "request_trace.http.request.headers";

/// The endpoint that payload records name.
pub const PAYLOAD_ENDPOINT: &'static str = "openai.chat_completion";

/// Captured headers by the names under which they are listed.
pub type CapturedHeaders = TextMap;

/// One part of a message.
#[derive(Debug)]
pub enum ContentPart {
    Text(String),
    ImageUrl(String),
    VideoUrl(String),
    AudioUrl(String),
    /// A part of any other kind.
    Other(String),
}

#[derive(Debug)]
pub enum MessageContent {
    Text(String),
    Array(Vec<ContentPart>),
}

#[derive(Debug)]
pub enum ChatMessage {
    User { content: MessageContent, name: Option<String> },
    Tool { content: MessageContent, tool_call_id: String },
    /// A message that carries no parts, as it was sent.
    Other(String),
}

/// A chat completion request as a client sent it.
#[derive(Debug)]
pub struct ChatRequest {
    pub model: String,
    pub stream: Option<bool>,
    pub messages: Vec<ChatMessage>,
    /// Everything else that was sent.
    pub rest: String,
}

pub enum PartView {
    Text(Seq<char>),
    ImageUrl(Seq<char>),
    VideoUrl(Seq<char>),
    AudioUrl(Seq<char>),
    Other(Seq<char>),
}

pub enum ContentView {
    Text(Seq<char>),
    Array(Seq<PartView>),
}

pub enum MessageView {
    User { content: ContentView, name: Option<Seq<char>> },
    Tool { content: ContentView, tool_call_id: Seq<char> },
    Other(Seq<char>),
}

pub struct RequestView {
    pub model: Seq<char>,
    pub stream: Option<bool>,
    pub messages: Seq<MessageView>,
    pub rest: Seq<char>,
}

impl View for ContentPart {
    type V = PartView;

    open spec fn view(&self) -> PartView {
        match self {
            ContentPart::Text(text) => PartView::Text(text@),
            ContentPart::ImageUrl(url) => PartView::ImageUrl(url@),
            ContentPart::VideoUrl(url) => PartView::VideoUrl(url@),
            ContentPart::AudioUrl(url) => PartView::AudioUrl(url@),
            ContentPart::Other(raw) => PartView::Other(raw@),
        }
    }
}

pub open spec fn part_views(parts: Seq<ContentPart>) -> Seq<PartView> {
    parts.map_values(|part: ContentPart| part@)
}

impl View for MessageContent {
    type V = ContentView;

    open spec fn view(&self) -> ContentView {
        match self {
            MessageContent::Text(text) => ContentView::Text(text@),
            MessageContent::Array(parts) => ContentView::Array(part_views(parts@)),
        }
    }
}

impl View for ChatMessage {
    type V = MessageView;

    open spec fn view(&self) -> MessageView {
        match self {
            ChatMessage::User { content, name } => MessageView::User {
                content: content@,
                name: seqs::text(*name),
            },
            ChatMessage::Tool { content, tool_call_id } => MessageView::Tool {
                content: content@,
                tool_call_id: tool_call_id@,
            },
            ChatMessage::Other(raw) => MessageView::Other(raw@),
        }
    }
}

pub open spec fn message_views(messages: Seq<ChatMessage>) -> Seq<MessageView> {
    messages.map_values(|message: ChatMessage| message@)
}

impl View for ChatRequest {
    type V = RequestView;

    open spec fn view(&self) -> RequestView {
        RequestView {
            model: self.model@,
            stream: self.stream,
            messages: message_views(self.messages@),
            rest: self.rest@,
        }
    }
}

impl PartView {
    /// What kind of media a part holds, if any.
    pub open spec fn media(self) -> Option<Seq<char>> {
        match self {
            PartView::Text(_) => None,
            PartView::ImageUrl(_) => Some("image_url"@),
            PartView::VideoUrl(_) => Some("video_url"@),
            PartView::AudioUrl(_) => Some("audio"@),
            PartView::Other(_) => Some("unknown"@),
        }
    }

    /// The part with media replaced by a note that says what was left out.
    pub open spec fn redacted(self) -> Self {
        match self.media() {
            Some(kind) => PartView::Text("["@ + kind + " omitted by audit]"@),
            None => self,
        }
    }
}

impl ContentView {
    pub open spec fn has_media(self) -> bool {
        match self {
            ContentView::Text(_) => false,
            ContentView::Array(parts) => exists|i: int|
                0 <= i < parts.len() && (#[trigger] parts[i]).media() is Some,
        }
    }

    pub open spec fn redacted(self) -> Self {
        match self {
            ContentView::Text(_) => self,
            ContentView::Array(parts) => ContentView::Array(
                parts.map_values(|part: PartView| part.redacted()),
            ),
        }
    }
}

impl MessageView {
    pub open spec fn has_media(self) -> bool {
        match self {
            MessageView::User { content, .. } => content.has_media(),
            MessageView::Tool { content, .. } => content.has_media(),
            MessageView::Other(_) => false,
        }
    }

    pub open spec fn redacted(self) -> Self {
        match self {
            MessageView::User { content, name } => MessageView::User {
                content: content.redacted(),
                name,
            },
            MessageView::Tool { content, tool_call_id } => MessageView::Tool {
                content: content.redacted(),
                tool_call_id,
            },
            MessageView::Other(_) => self,
        }
    }
}

impl RequestView {
    pub open spec fn has_media(self) -> bool {
        exists|i: int| 0 <= i < self.messages.len() && (#[trigger] self.messages[i]).has_media()
    }

    pub open spec fn redacted(self) -> Self {
        RequestView {
            messages: self.messages.map_values(|message: MessageView| message.redacted()),
            ..self
        }
    }
}

/// What kind of media a part holds, if any.
fn media_kind(part: &ContentPart) -> (r: Option<&'static str>)
    ensures
        match r {
            Some(kind) => part@.media() == Some(kind@),
            None => part@.media() is None,
        },
{
    match part {
        ContentPart::Text(_) => None,
        ContentPart::ImageUrl(_) => Some("image_url"),
        ContentPart::VideoUrl(_) => Some("video_url"),
        ContentPart::AudioUrl(_) => Some("audio"),
        ContentPart::Other(_) => Some("unknown"),
    }
}

fn content_has_media(content: &MessageContent) -> (r: bool)
    ensures
        r == content@.has_media(),
{
    match content {
        MessageContent::Text(_) => false,
        MessageContent::Array(parts) => {
            let mut i: usize = 0;
            while i < parts.len()
                invariant
                    i <= parts@.len(),
                    content@ == ContentView::Array(part_views(parts@)),
                    forall|j: int| 0 <= j < i ==> (#[trigger] part_views(parts@)[j]).media() is None,
                decreases parts@.len() - i,
            {
                if media_kind(&parts[i]).is_some() {
                    assert(part_views(parts@)[i as int].media() is Some);
                    return true;
                }
                i += 1;
            }
            false
        },
    }
}

fn request_has_media(req: &ChatRequest) -> (r: bool)
    ensures
        r == req@.has_media(),
{
    let mut i: usize = 0;
    while i < req.messages.len()
        invariant
            i <= req.messages@.len(),
            forall|j: int| 0 <= j < i ==> !(#[trigger] req@.messages[j]).has_media(),
        decreases req.messages@.len() - i,
    {
        let found = match &req.messages[i] {
            ChatMessage::User { content, .. } => content_has_media(content),
            ChatMessage::Tool { content, .. } => content_has_media(content),
            ChatMessage::Other(_) => false,
        };
        assert(found == req@.messages[i as int].has_media());
        if found {
            return true;
        }
        i += 1;
    }
    false
}

fn redact_part(part: &ContentPart) -> (r: ContentPart)
    ensures
        r@ == part@.redacted(),
{
    match media_kind(part) {
        Some(kind) => {
            let mut note = "[".to_owned();
            note.append(kind);
            note.append(" omitted by audit]");
            ContentPart::Text(note)
        },
        None => match part {
            ContentPart::Text(text) => ContentPart::Text(text.clone()),
            ContentPart::ImageUrl(raw) => ContentPart::ImageUrl(raw.clone()),
            ContentPart::VideoUrl(raw) => ContentPart::VideoUrl(raw.clone()),
            ContentPart::AudioUrl(raw) => ContentPart::AudioUrl(raw.clone()),
            ContentPart::Other(raw) => ContentPart::Other(raw.clone()),
        },
    }
}

fn redact_content(content: &MessageContent) -> (r: MessageContent)
    ensures
        r@ == content@.redacted(),
{
    match content {
        MessageContent::Text(text) => MessageContent::Text(text.clone()),
        MessageContent::Array(parts) => {
            let mut out: Vec<ContentPart> = Vec::new();
            let mut i: usize = 0;
            while i < parts.len()
                invariant
                    i <= parts@.len(),
                    out@.len() == i,
                    forall|j: int| 0 <= j < i ==> (#[trigger] out@[j])@ == parts@[j]@.redacted(),
                decreases parts@.len() - i,
            {
                out.push(redact_part(&parts[i]));
                i += 1;
            }
            assert(part_views(out@) =~= part_views(parts@).map_values(
                |part: PartView| part.redacted(),
            ));
            MessageContent::Array(out)
        },
    }
}

fn redact_message(message: &ChatMessage) -> (r: ChatMessage)
    ensures
        r@ == message@.redacted(),
{
    match message {
        ChatMessage::User { content, name } => ChatMessage::User {
            content: redact_content(content),
            name: text::copy_optional(name),
        },
        ChatMessage::Tool { content, tool_call_id } => ChatMessage::Tool {
            content: redact_content(content),
            tool_call_id: tool_call_id.clone(),
        },
        ChatMessage::Other(raw) => ChatMessage::Other(raw.clone()),
    }
}

/// The request with every part that holds media replaced.
fn redact_request(req: &ChatRequest) -> (r: ChatRequest)
    ensures
        r@ == req@.redacted(),
{
    let mut messages: Vec<ChatMessage> = Vec::new();
    let mut i: usize = 0;
    while i < req.messages.len()
        invariant
            i <= req.messages@.len(),
            messages@.len() == i,
            forall|j: int|
                0 <= j < i ==> (#[trigger] messages@[j])@ == req.messages@[j]@.redacted(),
        decreases req.messages@.len() - i,
    {
        messages.push(redact_message(&req.messages[i]));
        i += 1;
    }
    assert(message_views(messages@) =~= req@.messages.map_values(
        |message: MessageView| message.redacted(),
    ));
    ChatRequest {
        model: req.model.clone(),
        stream: req.stream,
        messages,
        rest: req.rest.clone(),
    }
}

/// Replaces media in user and tool messages by notes, so that no record holds
/// it. A request without media needs no copy: `None`.
pub fn redact_media(req: &ChatRequest) -> (r: Option<ChatRequest>)
    ensures
        r is Some <==> req@.has_media(),
        r is Some ==> r->0@ == req@.redacted(),
{
    if !request_has_media(req) {
        return None;
    }
    Some(redact_request(req))
}

proof fn lemma_content_redacted(content: ContentView)
    ensures
        !content.redacted().has_media(),
        !content.has_media() ==> content.redacted() == content,
{
    match content {
        ContentView::Text(_) => {},
        ContentView::Array(parts) => {
            let after = parts.map_values(|part: PartView| part.redacted());
            assert(forall|i: int| 0 <= i < after.len() ==> (#[trigger] after[i]).media() is None);
            if !content.has_media() {
                assert(after =~= parts);
            }
        },
    }
}

/// A redacted request holds no media, and one that held none is as it was.
pub proof fn redaction_removes_all_media(request: RequestView)
    ensures
        !request.redacted().has_media(),
        !request.has_media() ==> request.redacted() == request,
        request.redacted().redacted() == request.redacted(),
{
    let after = request.redacted();
    assert forall|i: int| 0 <= i < after.messages.len() implies !(
    #[trigger] after.messages[i]).has_media() && after.messages[i].redacted() == after.messages[i] && (
    !request.messages[i].has_media() ==> after.messages[i] == request.messages[i]) by {
        match request.messages[i] {
            MessageView::User { content, .. } => {
                lemma_content_redacted(content);
                lemma_content_redacted(content.redacted());
            },
            MessageView::Tool { content, .. } => {
                lemma_content_redacted(content);
                lemma_content_redacted(content.redacted());
            },
            MessageView::Other(_) => {},
        }
    }
    if !request.has_media() {
        assert(after.messages =~= request.messages);
    }
    assert(after.redacted().messages =~= after.messages);
}

/// Redaction keeps every message and part in its place, and all text.
pub proof fn redaction_keeps_text(request: RequestView, i: int, j: int)
    requires
        0 <= i < request.messages.len(),
    ensures
        request.redacted().messages.len() == request.messages.len(),
        match (request.messages[i], request.redacted().messages[i]) {
            (
                MessageView::User { content: ContentView::Array(before), .. },
                MessageView::User { content: ContentView::Array(after), .. },
            ) => before.len() == after.len() && (0 <= j < before.len() && before[j] is Text
                ==> after[j] == before[j]),
            (
                MessageView::Tool { content: ContentView::Array(before), .. },
                MessageView::Tool { content: ContentView::Array(after), .. },
            ) => before.len() == after.len() && (0 <= j < before.len() && before[j] is Text
                ==> after[j] == before[j]),
            (before, after) => before == after,
        },
{
}

/// What request traces record.
#[derive(Debug)]
pub struct CapturePolicy {
    /// Whether tracing is configured and running.
    pub capture_enabled: bool,
    pub emit_request_payload_records: bool,
    pub http_header_capture_list: Vec<String>,
}

/// Whether payload records are captured and a header allowlist is set.
pub fn http_header_capture_active(policy: &CapturePolicy) -> (r: bool)
    ensures
        r == (policy.capture_enabled && policy.emit_request_payload_records
            && policy.http_header_capture_list@.len() > 0),
{
    if !policy.capture_enabled {
        return false;
    }
    policy.emit_request_payload_records && policy.http_header_capture_list.len() > 0
}

/// Whether `name` is on the list.
pub open spec fn is_listed(list: Seq<String>, name: Seq<char>) -> bool {
    exists|i: int| 0 <= i < list.len() && (#[trigger] list[i])@ == name
}

/// Whether something is captured under `name`.
pub open spec fn is_captured(
    contents: Map<Seq<char>, Seq<Seq<u8>>>,
    list: Seq<String>,
    name: Seq<char>,
) -> bool {
    is_listed(list, name) && http_headers::captured(contents, name).len() > 0
}

/// Whether `r` is what is captured of the listed headers, by name.
pub open spec fn capture_result(
    contents: Map<Seq<char>, Seq<Seq<u8>>>,
    list: Seq<String>,
    r: Option<CapturedHeaders>,
) -> bool {
    &&& r is None <==> forall|name: Seq<char>| !#[trigger] is_captured(contents, list, name)
    &&& r is Some ==> r->0.wf()
    &&& r is Some ==> forall|name: Seq<char>| #[trigger]
        r->0@.contains_key(name) <==> is_captured(contents, list, name)
    &&& r is Some ==> forall|name: Seq<char>| #[trigger]
        r->0@.contains_key(name) ==> r->0@[name] == http_headers::captured(contents, name)
}

/// Collects the allowlisted request headers, in whatever case they were sent,
/// with repeated values joined. `None` unless payloads are captured and the
/// allowlist is not empty.
pub fn capture_http_headers(
    headers: &axum::http::HeaderMap<axum::http::HeaderValue>,
    policy: &CapturePolicy,
) -> (r: Option<CapturedHeaders>)
    ensures
        policy.capture_enabled && policy.emit_request_payload_records ==> capture_result(
            http_headers::header_contents(*headers),
            policy.http_header_capture_list@,
            r,
        ),
        !(policy.capture_enabled && policy.emit_request_payload_records) ==> r is None,
{
    if !http_header_capture_active(policy) {
        assert(policy.http_header_capture_list@.len() == 0 ==> forall|name: Seq<char>|
            !#[trigger] is_captured(
                http_headers::header_contents(*headers),
                policy.http_header_capture_list@,
                name,
            ));
        return None;
    }
    capture_http_headers_with_list(headers, policy.http_header_capture_list.as_slice())
}

pub fn capture_http_headers_with_list(
    headers: &axum::http::HeaderMap<axum::http::HeaderValue>,
    capture_list: &[String],
) -> (r: Option<CapturedHeaders>)
    ensures
        capture_result(http_headers::header_contents(*headers), capture_list@, r),
{
    let ghost contents = http_headers::header_contents(*headers);
    let mut out: CapturedHeaders = TextMap::new();
    let mut found = false;
    let mut i: usize = 0;
    while i < capture_list.len()
        invariant
            i <= capture_list@.len(),
            contents == http_headers::header_contents(*headers),
            out.wf(),
            found <==> exists|name: Seq<char>| #[trigger] out@.contains_key(name),
            forall|name: Seq<char>| #[trigger]
                out@.contains_key(name) ==> is_captured(contents, capture_list@, name)
                    && out@[name] == http_headers::captured(contents, name),
            forall|j: int|
                0 <= j < i && http_headers::captured(contents, (#[trigger] capture_list@[j])@).len()
                    > 0 ==> out@.contains_key(capture_list@[j]@),
        decreases capture_list@.len() - i,
    {
        let name = &capture_list[i];
        let values = all_values(headers, name.as_str());
        let joined = join_values(&values);
        if !text::is_blank(joined.as_str()) {
            assert(is_listed(capture_list@, name@));
            out.insert(name.clone(), joined);
            assert(out@.contains_key(name@));
            found = true;
        }
        i += 1;
    }
    proof {
        assert forall|name: Seq<char>| #[trigger] is_captured(
            contents,
            capture_list@,
            name,
        ) implies out@.contains_key(name) by {
            let j = choose|j: int|
                0 <= j < capture_list@.len() && (#[trigger] capture_list@[j])@ == name;
            assert(out@.contains_key(capture_list@[j]@));
        }
        if found {
            let name = choose|name: Seq<char>| #[trigger] out@.contains_key(name);
            assert(is_captured(contents, capture_list@, name));
        }
    }
    if found {
        Some(out)
    } else {
        None
    }
}

/// A captured header is one that the list names.
pub proof fn only_listed_headers_are_captured(
    contents: Map<Seq<char>, Seq<Seq<u8>>>,
    list: Seq<String>,
    r: Option<CapturedHeaders>,
    name: Seq<char>,
)
    requires
        capture_result(contents, list, r),
        !is_listed(list, name),
    ensures
        r is Some ==> !r->0@.contains_key(name),
        list.len() == 0 ==> r is None,
{
    if list.len() == 0 {
        assert(forall|other: Seq<char>| !#[trigger] is_captured(contents, list, other));
    }
}

/// The record to be made of one request.
///
/// `H` is what was captured of its headers.
pub struct RequestPayloadHandle<H> {
    pub requested_streaming: bool,
    pub request_id: String,
    pub model: String,
    /// When the request came in, in nanoseconds since the Unix epoch.
    pub event_time: i128,
    pub request: ChatRequest,
    pub http_request_headers: Option<H>,
}

/// The record of one request.
pub struct RequestTracePayload<R, H> {
    pub request_id: String,
    pub endpoint: String,
    pub model: String,
    pub request: Option<ChatRequest>,
    pub response: Option<R>,
    pub http_request_headers: Option<H>,
    pub payload_complete: bool,
    pub payload_drop_reason: Option<String>,
}

impl<H> RequestPayloadHandle<H> {
    pub fn streaming(&self) -> (r: bool)
        ensures
            r == self.requested_streaming,
    {
        self.requested_streaming
    }

    pub fn request_id(&self) -> (r: &str)
        ensures
            r@ == self.request_id@,
    {
        self.request_id.as_str()
    }

    /// The one record of the request, and its time in milliseconds. Without a
    /// response, because the client went away or the response failed, it still
    /// carries the request.
    pub fn emit<R>(self, response: Option<R>) -> (r: (RequestTracePayload<R, H>, u64))
        ensures
            r.0.request_id == self.request_id,
            r.0.endpoint@ == PAYLOAD_ENDPOINT@,
            r.0.model == self.model,
            r.0.request == Some(self.request),
            r.0.response == response,
            r.0.http_request_headers == self.http_request_headers,
            r.0.payload_complete,
            r.0.payload_drop_reason is None,
            r.1 == millis_since_epoch(self.event_time as int),
    {
        let time: u64 = unix_time_ms(self.event_time);
        (
            RequestTracePayload {
                request_id: self.request_id,
                endpoint: PAYLOAD_ENDPOINT.to_owned(),
                model: self.model,
                request: Some(self.request),
                response,
                http_request_headers: self.http_request_headers,
                payload_complete: true,
                payload_drop_reason: None,
            },
            time,
        )
    }
}

/// Whole milliseconds since the epoch, zero before it, and no more than fit.
pub open spec fn millis_since_epoch(nanos: int) -> u64 {
    if nanos < 0 {
        0
    } else if nanos / 1_000_000 > u64::MAX {
        u64::MAX
    } else {
        (nanos / 1_000_000) as u64
    }
}

/// The milliseconds of a time in nanoseconds since the Unix epoch.
pub fn unix_time_ms(time: i128) -> (r: u64)
    ensures
        r == millis_since_epoch(time as int),
{
    if time < 0 {
        return 0;
    }
    let millis: u128 = time as u128 / 1_000_000;
    if millis > u64::MAX as u128 {
        u64::MAX
    } else {
        millis as u64
    }
}

/// A handle for the record of a request, if payload records are made. What it
/// keeps of the request holds no media.
pub fn create_handle<H>(
    req: &ChatRequest,
    request_id: &str,
    policy: &CapturePolicy,
    http_request_headers: Option<H>,
    now: i128,
) -> (r: Option<RequestPayloadHandle<H>>)
    ensures
        r is Some <==> policy.capture_enabled && policy.emit_request_payload_records,
        r is Some ==> {
            &&& r->0.requested_streaming == (req.stream == Some(true))
            &&& r->0.request_id@ == request_id@
            &&& r->0.model@ == req.model@
            &&& r->0.event_time == now
            &&& r->0.request@ == req@.redacted()
            &&& r->0.http_request_headers == http_request_headers
        },
{
    create_handle_with_config(
        req,
        request_id,
        policy.capture_enabled,
        policy.emit_request_payload_records,
        http_request_headers,
        now,
    )
}

pub fn create_handle_with_config<H>(
    req: &ChatRequest,
    request_id: &str,
    enabled: bool,
    emit_request_payload: bool,
    http_request_headers: Option<H>,
    now: i128,
) -> (r: Option<RequestPayloadHandle<H>>)
    ensures
        r is Some <==> enabled && emit_request_payload,
        r is Some ==> {
            &&& r->0.requested_streaming == (req.stream == Some(true))
            &&& r->0.request_id@ == request_id@
            &&& r->0.model@ == req.model@
            &&& r->0.event_time == now
            &&& r->0.request@ == req@.redacted()
            &&& r->0.http_request_headers == http_request_headers
        },
{
    if !enabled || !emit_request_payload {
        return None;
    }
    let requested_streaming = match req.stream {
        Some(stream) => stream,
        None => false,
    };
    let request = match redact_media(req) {
        Some(redacted) => redacted,
        None => redact_request(req),
    };
    Some(
        RequestPayloadHandle {
            requested_streaming,
            request_id: request_id.to_owned(),
            model: req.model.clone(),
            event_time: now,
            request,
            http_request_headers,
        },
    )
}

/// Whether a request carries anything but text in the parts of a user or a tool
/// message.
pub open spec fn carries_media(request: RequestView, i: int, j: int) -> bool {
    &&& 0 <= i < request.messages.len()
    &&& match request.messages[i] {
        MessageView::User { content: ContentView::Array(parts), .. } => 0 <= j < parts.len()
            && !(parts[j] is Text),
        MessageView::Tool { content: ContentView::Array(parts), .. } => 0 <= j < parts.len()
            && !(parts[j] is Text),
        _ => false,
    }
}

/// A request is found to hold media just if a part of a user or a tool message
/// is anything but text.
pub proof fn media_is_all_but_text(request: RequestView)
    ensures
        request.has_media() <==> exists|i: int, j: int| carries_media(request, i, j),
{
    if request.has_media() {
        let i = choose|i: int|
            0 <= i < request.messages.len() && (#[trigger] request.messages[i]).has_media();
        match request.messages[i] {
            MessageView::User { content: ContentView::Array(parts), .. } => {
                let j = choose|j: int| 0 <= j < parts.len() && (#[trigger] parts[j]).media() is Some;
                assert(carries_media(request, i, j));
            },
            MessageView::Tool { content: ContentView::Array(parts), .. } => {
                let j = choose|j: int| 0 <= j < parts.len() && (#[trigger] parts[j]).media() is Some;
                assert(carries_media(request, i, j));
            },
            _ => {},
        }
    }
    if exists|i: int, j: int| carries_media(request, i, j) {
        let (i, j) = choose|i: int, j: int| carries_media(request, i, j);
        match request.messages[i] {
            MessageView::User { content: ContentView::Array(parts), .. } => {
                assert(parts[j].media() is Some);
            },
            MessageView::Tool { content: ContentView::Array(parts), .. } => {
                assert(parts[j].media() is Some);
            },
            _ => {},
        }
        assert(request.messages[i].has_media());
    }
}

/// What stands in the place of a part: text as it is, and for anything else a
/// note that says what was left out and nothing of what it was.
pub open spec fn stands_for(after: PartView, before: PartView) -> bool {
    match before {
        PartView::Text(text) => after == PartView::Text(text),
        PartView::ImageUrl(_) => after matches PartView::Text(note) && note
            == "[image_url omitted by audit]"@,
        PartView::VideoUrl(_) => after matches PartView::Text(note) && note
            == "[video_url omitted by audit]"@,
        PartView::AudioUrl(_) => after matches PartView::Text(note) && note
            == "[audio omitted by audit]"@,
        PartView::Other(_) => after matches PartView::Text(note) && note
            == "[unknown omitted by audit]"@,
    }
}

proof fn lemma_notes(part: PartView)
    ensures
        stands_for(part.redacted(), part),
{
    reveal_strlit("[");
    reveal_strlit(" omitted by audit]");
    reveal_strlit("image_url");
    reveal_strlit("video_url");
    reveal_strlit("audio");
    reveal_strlit("unknown");
    reveal_strlit("[image_url omitted by audit]");
    reveal_strlit("[video_url omitted by audit]");
    reveal_strlit("[audio omitted by audit]");
    reveal_strlit("[unknown omitted by audit]");
    assert("["@ + "image_url"@ + " omitted by audit]"@ =~= "[image_url omitted by audit]"@);
    assert("["@ + "video_url"@ + " omitted by audit]"@ =~= "[video_url omitted by audit]"@);
    assert("["@ + "audio"@ + " omitted by audit]"@ =~= "[audio omitted by audit]"@);
    assert("["@ + "unknown"@ + " omitted by audit]"@ =~= "[unknown omitted by audit]"@);
}

/// Redaction puts a note in the place of every part of a user or a tool message
/// that is not text, and leaves everything else as it is.
pub proof fn notes_take_the_place_of_media(request: RequestView, i: int, j: int)
    requires
        0 <= i < request.messages.len(),
    ensures
        ({
            let after = request.redacted();
            &&& after.model == request.model
            &&& after.stream == request.stream
            &&& after.rest == request.rest
            &&& after.messages.len() == request.messages.len()
            &&& !carries_media(after, i, j)
            &&& match request.messages[i] {
                MessageView::User { content: ContentView::Array(parts), name } => {
                    &&& after.messages[i] matches MessageView::User { content: kept, name: same }
                    &&& same == name
                    &&& kept matches ContentView::Array(notes)
                    &&& notes.len() == parts.len()
                    &&& 0 <= j < parts.len() ==> stands_for(notes[j], parts[j])
                },
                MessageView::Tool { content: ContentView::Array(parts), tool_call_id } => {
                    &&& after.messages[i] matches MessageView::Tool {
                        content: kept,
                        tool_call_id: same,
                    }
                    &&& same == tool_call_id
                    &&& kept matches ContentView::Array(notes)
                    &&& notes.len() == parts.len()
                    &&& 0 <= j < parts.len() ==> stands_for(notes[j], parts[j])
                },
                _ => after.messages[i] == request.messages[i],
            }
        }),
{
    match request.messages[i] {
        MessageView::User { content: ContentView::Array(parts), .. } => {
            if 0 <= j < parts.len() {
                lemma_notes(parts[j]);
            }
        },
        MessageView::Tool { content: ContentView::Array(parts), .. } => {
            if 0 <= j < parts.len() {
                lemma_notes(parts[j]);
            }
        },
        _ => {},
    }
}

/// A listed header with some text is captured under the name by which it is
/// listed, whichever other headers there are, and nothing is captured under any
/// other name.
pub proof fn listed_headers_are_captured(
    contents: Map<Seq<char>, Seq<Seq<u8>>>,
    list: Seq<String>,
    r: Option<CapturedHeaders>,
    i: int,
    name: Seq<char>,
)
    requires
        capture_result(contents, list, r),
        0 <= i < list.len(),
    ensures
        http_headers::captured(contents, list[i]@).len() > 0 ==> r is Some
            && r->0@.contains_key(list[i]@) && r->0@[list[i]@] == http_headers::captured(
            contents,
            list[i]@,
        ),
        r is Some && http_headers::captured(contents, list[i]@).len() == 0
            ==> !r->0@.contains_key(list[i]@),
        r is Some && r->0@.contains_key(name) ==> (exists|k: int|
            0 <= k < list.len() && (#[trigger] list[k])@ == name) && r->0@[name].len() > 0
            && r->0@[name] == http_headers::captured(contents, name),
        r is Some ==> exists|key: Seq<char>| #[trigger] r->0@.contains_key(key),
        r is Some ==> r->0.wf(),
{
    let own = list[i]@;
    assert(is_listed(list, own));
    assert(is_captured(contents, list, own) <==> http_headers::captured(contents, own).len() > 0);
    if r is Some {
        let found = choose|found: Seq<char>| is_captured(contents, list, found);
        assert(is_captured(contents, list, found));
        assert(r->0@.contains_key(found));
    }
}

/// The time of a record is the number of whole milliseconds that have passed
/// since the epoch.
pub proof fn records_tell_whole_milliseconds(nanos: int)
    ensures
        nanos < 0 ==> millis_since_epoch(nanos) == 0,
        0 <= nanos < 18_446_744_073_709_551_616_000_000 ==> millis_since_epoch(nanos) * 1_000_000
            <= nanos < (millis_since_epoch(nanos) + 1) * 1_000_000,
        nanos >= 18_446_744_073_709_551_616_000_000 ==> millis_since_epoch(nanos) == u64::MAX,
{
}

/// A request is seen as it was sent: every message with its parts in order, each
/// for what it is.
pub proof fn requests_are_seen_whole(request: ChatRequest, parts: Seq<ContentPart>, i: int)
    ensures
        request@.model == request.model@,
        request@.stream == request.stream,
        request@.rest == request.rest@,
        request@.messages.len() == request.messages@.len(),
        0 <= i < request.messages@.len() ==> match request.messages@[i] {
            ChatMessage::User { content, name } => request@.messages[i] == (MessageView::User {
                content: content@,
                name: seqs::text(name),
            }),
            ChatMessage::Tool { content, tool_call_id } => request@.messages[i] == (
            MessageView::Tool { content: content@, tool_call_id: tool_call_id@ }),
            ChatMessage::Other(raw) => request@.messages[i] == MessageView::Other(raw@),
        },
        part_views(parts).len() == parts.len(),
        0 <= i < parts.len() ==> match parts[i] {
            ContentPart::Text(text) => part_views(parts)[i] == PartView::Text(text@),
            ContentPart::ImageUrl(url) => part_views(parts)[i] == PartView::ImageUrl(url@),
            ContentPart::VideoUrl(url) => part_views(parts)[i] == PartView::VideoUrl(url@),
            ContentPart::AudioUrl(url) => part_views(parts)[i] == PartView::AudioUrl(url@),
            ContentPart::Other(raw) => part_views(parts)[i] == PartView::Other(raw@),
        },
{
}

/// The content of a message is seen for what it is.
pub proof fn contents_are_seen_whole(content: MessageContent)
    ensures
        match content {
            MessageContent::Text(text) => content@ == ContentView::Text(text@),
            MessageContent::Array(parts) => content@ == ContentView::Array(part_views(parts@)),
        },
{
}

} // verus!
