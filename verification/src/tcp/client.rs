//! The worker's end of a request stream.

use crate::network::{ControlMessage, StreamType};
use crate::tcp::info::{CallHomeHandshake, TcpStreamConnectionInfo};
use crate::text;
use vstd::prelude::*;

verus! {

/// Why a worker does not call back.
#[derive(Clone, Copy, Debug, PartialEq, Eq, Structural)]
pub enum CallbackError {
    NotARequestStream,
    ContextMismatch,
}

/// Calls frontends back.
#[derive(Clone, Copy, Debug)]
pub struct TcpClient;

impl TcpClient {
    /// The handshake that opens a request stream for the request `context_id`,
    /// if the connection is meant for it.
    pub fn create_request_stream(info: &TcpStreamConnectionInfo, context_id: &str) -> (r: Result<
        CallHomeHandshake,
        CallbackError,
    >)
        ensures
            if info.stream_type != StreamType::Request {
                r is Err && r->Err_0 == CallbackError::NotARequestStream
            } else if info.context@ != context_id@ {
                r is Err && r->Err_0 == CallbackError::ContextMismatch
            } else {
                &&& r is Ok
                &&& r->Ok_0.subject@ == info.subject@
                &&& r->Ok_0.stream_type == StreamType::Request
            },
    {
        match info.stream_type {
            StreamType::Request => {},
            StreamType::Response => {
                return Err(CallbackError::NotARequestStream);
            },
        }
        if !text::same_text(info.context.as_str(), context_id) {
            return Err(CallbackError::ContextMismatch);
        }
        Ok(CallHomeHandshake { subject: info.subject.clone(), stream_type: StreamType::Request })
    }
}

/// How a worker secures its connections.
#[derive(Debug)]
pub enum TlsMode {
    /// Not at all. `unexpected` says that the frontend is set up for TLS.
    Plaintext { unexpected: bool },
    /// With TLS. The certificate of the frontend is checked against `ca`, or
    /// not at all where that is said to be fine.
    Tls { ca: Option<String>, insecure: bool },
}

/// How the environment asks connections to be secured.
pub fn tls_mode(ca_cert_path: Option<String>, insecure: bool, server_cert_set: bool) -> (r: TlsMode)
    ensures
        r == if ca_cert_path is None && !insecure {
            TlsMode::Plaintext { unexpected: server_cert_set }
        } else {
            TlsMode::Tls { ca: ca_cert_path, insecure }
        },
{
    if ca_cert_path.is_none() && !insecure {
        return TlsMode::Plaintext { unexpected: server_cert_set };
    }
    TlsMode::Tls { ca: ca_cert_path, insecure }
}

/// The part of an address in front of its last colon, or all of it if it has none.
pub open spec fn host_part(address: Seq<char>) -> Seq<char> {
    if exists|i: int| 0 <= i < address.len() && address[i] == ':' {
        address.take(last_colon(address))
    } else {
        address
    }
}

pub open spec fn is_last_colon(address: Seq<char>, at: int) -> bool {
    &&& 0 <= at < address.len()
    &&& address[at] == ':'
    &&& forall|i: int| at < i < address.len() ==> address[i] != ':'
}

/// Where the last colon of an address is.
pub open spec fn last_colon(address: Seq<char>) -> int {
    choose|at: int| is_last_colon(address, at)
}

fn read_host_part(address: &str) -> (r: String)
    ensures
        r@ == host_part(address@),
{
    let chars = text::chars_of(address);
    let mut i: usize = chars.len();
    while i > 0
        invariant
            i <= chars@.len(),
            chars@ == address@,
            forall|j: int| i <= j < chars@.len() ==> chars@[j] != ':',
        decreases i,
    {
        i -= 1;
        if chars[i] == ':' {
            let mut host = String::new();
            let mut k: usize = 0;
            while k < i
                invariant
                    k <= i < chars@.len(),
                    host@ == chars@.take(k as int),
                decreases i - k,
            {
                host.push(chars[k]);
                assert(chars@.take(k + 1) =~= chars@.take(k as int).push(chars@[k as int]));
                k += 1;
            }
            proof {
                assert(is_last_colon(address@, i as int));
                let at = last_colon(address@);
                assert(is_last_colon(address@, at));
                assert(at == i);
            }
            return host;
        }
    }
    address.to_owned()
}

/// The name that the frontend's certificate has to carry: the one that was
/// configured, or the IP address that is dialled, or the host's name.
pub open spec fn expected_name(
    configured: Option<String>,
    address: Seq<char>,
    ip: Option<String>,
) -> Seq<char> {
    match configured {
        Some(name) => name@,
        None => match ip {
            Some(ip) => ip@,
            None => host_part(address),
        },
    }
}

/// The name that the frontend's certificate has to carry, whether or not TLS
/// takes it.
///
/// `ip` is the IP address of `address`, if it has the form of one with a port.
pub fn server_name_text(configured: Option<String>, address: &str, ip: Option<String>) -> (r: String)
    ensures
        r@ == expected_name(configured, address@, ip),
{
    match configured {
        Some(name) => name,
        None => match ip {
            Some(ip) => ip,
            None => read_host_part(address),
        },
    }
}

/// Whether TLS takes a text for the name of a server.
pub uninterp spec fn is_server_name(text: Seq<char>) -> bool;

/// `rustls::pki_types::ServerName::try_from` on a string: succeeds or fails by
/// the text alone.
#[verifier::external_body]
fn accepts_server_name(text: &str) -> (r: bool)
    ensures
        r == is_server_name(text@),
{
    rustls::pki_types::ServerName::try_from(text.to_owned()).is_ok()
}

/// The name that the frontend's certificate has to carry is none that TLS takes.
#[derive(Clone, Copy, Debug, PartialEq, Eq, Structural)]
pub struct InvalidServerName;

/// The name that the frontend's certificate has to carry, if TLS takes it.
///
/// `ip` is the IP address of `address`, if it has the form of one with a port.
pub fn tls_server_name(configured: Option<String>, address: &str, ip: Option<String>) -> (r: Result<
    String,
    InvalidServerName,
>)
    ensures
        r is Ok <==> is_server_name(expected_name(configured, address@, ip)),
        r is Ok ==> r->Ok_0@ == expected_name(configured, address@, ip),
{
    let name = server_name_text(configured, address, ip);
    if accepts_server_name(name.as_str()) {
        Ok(name)
    } else {
        Err(InvalidServerName)
    }
}

/// How long to wait before dialling again, in nanoseconds.
pub const CONNECT_BACKOFF: u64 = 200_000_000;

/// What dialling a frontend came to.
#[derive(Clone, Copy, Debug, PartialEq, Eq, Structural)]
pub enum ConnectEvent {
    Connected,
    /// There is no local address to dial from at the moment.
    AddressNotAvailable,
    Failed,
}

/// What to do about it.
#[derive(Clone, Copy, Debug, PartialEq, Eq, Structural)]
pub enum ConnectAction {
    Use,
    RetryAfter(u64),
    GiveUp,
}

/// Reacts to the outcome of dialling a frontend.
pub fn connect_step(event: ConnectEvent) -> (r: ConnectAction)
    ensures
        r == match event {
            ConnectEvent::Connected => ConnectAction::Use,
            ConnectEvent::AddressNotAvailable => ConnectAction::RetryAfter(CONNECT_BACKOFF),
            ConnectEvent::Failed => ConnectAction::GiveUp,
        },
{
    match event {
        ConnectEvent::Connected => ConnectAction::Use,
        ConnectEvent::AddressNotAvailable => ConnectAction::RetryAfter(CONNECT_BACKOFF),
        ConnectEvent::Failed => ConnectAction::GiveUp,
    }
}

/// What may happen to a request stream on the worker's end.
#[derive(Debug)]
pub enum ReadEvent {
    Killed,
    Stopped,
    /// Nobody takes the request's frames any more.
    ReceiverClosed,
    Data(Vec<u8>),
    Control(ControlMessage),
    /// A control message that cannot be read.
    InvalidControl,
    /// A message that is neither data nor control.
    UnexpectedMessage,
    ReadFailed,
    /// The frontend hung up without a word.
    EndOfStream,
}

/// What a request is told.
#[derive(Clone, Copy, Debug, PartialEq, Eq, Structural)]
pub enum Notice {
    Nothing,
    Stop,
    Kill,
}

/// What to do about an event.
#[derive(Debug)]
pub enum ReadAction {
    /// Pass the data on. If nobody takes it the stream is over.
    Deliver(Vec<u8>),
    /// The stream is over. `cancelled` says whether to count a cancellation.
    Finish { notice: Notice, cancelled: bool },
}

pub enum ReadReaction {
    Deliver(Seq<u8>),
    Finish { notice: Notice, cancelled: bool },
}

pub open spec fn read_reaction(event: ReadEvent) -> ReadReaction {
    match event {
        ReadEvent::Data(data) => ReadReaction::Deliver(data@),
        ReadEvent::Killed => ReadReaction::Finish { notice: Notice::Nothing, cancelled: false },
        ReadEvent::Stopped => ReadReaction::Finish { notice: Notice::Nothing, cancelled: false },
        ReadEvent::ReceiverClosed => ReadReaction::Finish {
            notice: Notice::Nothing,
            cancelled: false,
        },
        ReadEvent::Control(ControlMessage::Sentinel) => ReadReaction::Finish {
            notice: Notice::Nothing,
            cancelled: false,
        },
        ReadEvent::Control(ControlMessage::Stop) => ReadReaction::Finish {
            notice: Notice::Stop,
            cancelled: true,
        },
        ReadEvent::Control(ControlMessage::Kill) => ReadReaction::Finish {
            notice: Notice::Kill,
            cancelled: true,
        },
        ReadEvent::InvalidControl => ReadReaction::Finish { notice: Notice::Kill, cancelled: true },
        ReadEvent::UnexpectedMessage => ReadReaction::Finish {
            notice: Notice::Kill,
            cancelled: true,
        },
        ReadEvent::ReadFailed => ReadReaction::Finish { notice: Notice::Kill, cancelled: true },
        ReadEvent::EndOfStream => ReadReaction::Finish { notice: Notice::Kill, cancelled: true },
    }
}

pub open spec fn reaction_of(action: ReadAction) -> ReadReaction {
    match action {
        ReadAction::Deliver(data) => ReadReaction::Deliver(data@),
        ReadAction::Finish { notice, cancelled } => ReadReaction::Finish { notice, cancelled },
    }
}

/// Reacts to one event of a request stream.
pub fn read_request_stream(event: ReadEvent) -> (r: ReadAction)
    ensures
        reaction_of(r) == read_reaction(event),
{
    match event {
        ReadEvent::Killed | ReadEvent::Stopped | ReadEvent::ReceiverClosed => ReadAction::Finish {
            notice: Notice::Nothing,
            cancelled: false,
        },
        ReadEvent::Data(data) => ReadAction::Deliver(data),
        ReadEvent::Control(control) => match control {
            ControlMessage::Sentinel => ReadAction::Finish {
                notice: Notice::Nothing,
                cancelled: false,
            },
            ControlMessage::Stop => ReadAction::Finish { notice: Notice::Stop, cancelled: true },
            ControlMessage::Kill => ReadAction::Finish { notice: Notice::Kill, cancelled: true },
        },
        ReadEvent::InvalidControl
        | ReadEvent::UnexpectedMessage
        | ReadEvent::ReadFailed
        | ReadEvent::EndOfStream => ReadAction::Finish { notice: Notice::Kill, cancelled: true },
    }
}

/// What the request gets of a stream: all data before the first event that
/// ends it.
pub open spec fn delivered(events: Seq<ReadEvent>) -> Seq<Seq<u8>>
    decreases events.len(),
{
    if events.len() == 0 {
        Seq::empty()
    } else {
        match read_reaction(events[0]) {
            ReadReaction::Deliver(data) => seq![data] + delivered(events.skip(1)),
            ReadReaction::Finish { .. } => Seq::empty(),
        }
    }
}

/// How a stream ends, once it has.
pub open spec fn ending(events: Seq<ReadEvent>) -> Option<ReadReaction>
    decreases events.len(),
{
    if events.len() == 0 {
        None
    } else {
        match read_reaction(events[0]) {
            ReadReaction::Deliver(_) => ending(events.skip(1)),
            ReadReaction::Finish { .. } => Some(read_reaction(events[0])),
        }
    }
}

/// The frames that a frontend sends before it says that there are no more are
/// what the request gets, in order, and nothing is cancelled.
pub proof fn complete_stream_is_delivered_whole(frames: Seq<Vec<u8>>, rest: Seq<ReadEvent>)
    ensures
        ({
            let events = frames.map_values(|frame: Vec<u8>| ReadEvent::Data(frame)) + seq![
                ReadEvent::Control(ControlMessage::Sentinel),
            ] + rest;
            &&& delivered(events) == frames.map_values(|frame: Vec<u8>| frame@)
            &&& ending(events) == Some(
                ReadReaction::Finish { notice: Notice::Nothing, cancelled: false },
            )
        }),
    decreases frames.len(),
{
    let sentinel = seq![ReadEvent::Control(ControlMessage::Sentinel)];
    let events = frames.map_values(|frame: Vec<u8>| ReadEvent::Data(frame)) + sentinel + rest;
    if frames.len() == 0 {
        assert(events[0] == sentinel[0]);
        assert(delivered(events) =~= frames.map_values(|frame: Vec<u8>| frame@));
    } else {
        let others = frames.skip(1);
        complete_stream_is_delivered_whole(others, rest);
        assert(events[0] == ReadEvent::Data(frames[0]));
        assert(events.skip(1) =~= others.map_values(|frame: Vec<u8>| ReadEvent::Data(frame))
            + sentinel + rest);
        assert(delivered(events) =~= frames.map_values(|frame: Vec<u8>| frame@));
    }
}

/// What the frontend says about a request stream reaches the request: a stop
/// stops it and a kill kills it. So does anything that breaks the stream, for the
/// request cannot be complete then. Each of these counts as a cancellation. What
/// the worker itself ends, and a proper end, does not.
pub proof fn stream_events_reach_the_request(event: ReadEvent)
    ensures
        match event {
            ReadEvent::Data(data) => read_reaction(event) == ReadReaction::Deliver(data@),
            _ => read_reaction(event) is Finish,
        },
        event == ReadEvent::Control(ControlMessage::Stop) ==> read_reaction(event)->notice
            == Notice::Stop,
        event == ReadEvent::Control(ControlMessage::Kill) || event is InvalidControl || event
            is UnexpectedMessage || event is ReadFailed || event is EndOfStream ==> read_reaction(
            event,
        )->notice == Notice::Kill,
        event == ReadEvent::Control(ControlMessage::Sentinel) || event is Killed || event
            is Stopped || event is ReceiverClosed ==> read_reaction(event)->notice
            == Notice::Nothing,
        !(event is Data) ==> (read_reaction(event)->cancelled <==> read_reaction(event)->notice
            != Notice::Nothing),
{
}

/// What is done about an event is the reaction to it.
pub proof fn actions_are_their_reactions(action: ReadAction)
    ensures
        match action {
            ReadAction::Deliver(data) => reaction_of(action) == ReadReaction::Deliver(data@),
            ReadAction::Finish { notice, cancelled } => reaction_of(action) is Finish
                && reaction_of(action)->notice == notice && reaction_of(action)->cancelled
                == cancelled,
        },
{
}

/// The host is what stands in front of the last colon, and all of the address
/// where there is none.
pub proof fn hosts_stand_before_the_last_colon(host: Seq<char>, port: Seq<char>)
    requires
        !port.contains(':'),
    ensures
        host_part(host + seq![':'] + port) == host,
        host_part(port) == port,
{
    let all = host + seq![':'] + port;
    let n = host.len() as int;
    assert(all[n] == ':');
    assert forall|i: int| n < i < all.len() implies all[i] != ':' by {
        assert(all[i] == port[i - n - 1]);
        assert(port.contains(port[i - n - 1]));
    }
    assert(is_last_colon(all, n));
    let at = last_colon(all);
    assert(is_last_colon(all, at));
    assert(at == n);
    assert(all.take(n) =~= host);
    assert forall|i: int| 0 <= i < port.len() implies port[i] != ':' by {
        assert(port.contains(port[i]));
    }
}

/// A name that was configured counts, then the IP address that is dialled, and
/// then the host.
pub proof fn configured_names_count_first(
    configured: Option<String>,
    address: Seq<char>,
    ip: Option<String>,
)
    ensures
        configured is Some ==> expected_name(configured, address, ip) == configured->0@,
        configured is None && ip is Some ==> expected_name(configured, address, ip) == ip->0@,
        configured is None && ip is None ==> expected_name(configured, address, ip) == host_part(
            address,
        ),
{
}

} // verus!
