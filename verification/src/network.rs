//! What the request plane agrees on: payload codecs, control messages and
//! registered streams.

use crate::text;
use vstd::prelude::*;

verus! {

/// Shared default maximum TCP message size across request-plane components.
pub const DEFAULT_TCP_MAX_MESSAGE_SIZE: usize = 33_554_432;

/// Default number of frames buffered between the data-plane socket task and the
/// engine consumer or producer of a single stream.
pub const DEFAULT_SEND_BUFFER_COUNT: usize = 64;

/// The configured maximum TCP message size, or the default where the setting
/// is absent or no number.
pub fn get_tcp_max_message_size(value: Option<&str>) -> (r: usize)
    ensures
        r == match value {
            Some(text) => match text::unsigned_reading(text@, usize::MAX as nat) {
                Some(size) => size as usize,
                None => DEFAULT_TCP_MAX_MESSAGE_SIZE,
            },
            None => DEFAULT_TCP_MAX_MESSAGE_SIZE,
        },
{
    match value {
        Some(text) => match text::read_unsigned(text, usize::MAX as u64) {
            Some(size) => size as usize,
            None => DEFAULT_TCP_MAX_MESSAGE_SIZE,
        },
        None => DEFAULT_TCP_MAX_MESSAGE_SIZE,
    }
}

/// How request and response payloads are encoded.
#[derive(Clone, Copy, Debug, PartialEq, Eq, Structural)]
pub enum RequestPlanePayloadCodec {
    Json,
    Msgpack,
}

impl Default for RequestPlanePayloadCodec {
    /// JSON, which a control message without a codec stands for.
    fn default() -> (r: Self)
        ensures
            r == RequestPlanePayloadCodec::Json,
    {
        RequestPlanePayloadCodec::Json
    }
}

/// The codec that a configuration value selects: JSON where it says so, and
/// MessagePack otherwise.
pub open spec fn codec_of(value: Option<&str>) -> RequestPlanePayloadCodec {
    if value is Some && value->0@ == "json"@ {
        RequestPlanePayloadCodec::Json
    } else {
        RequestPlanePayloadCodec::Msgpack
    }
}

impl RequestPlanePayloadCodec {
    /// The codec in use, which `chosen` keeps. The first call settles it
    /// according to the configuration value.
    pub fn configured(chosen: &mut Option<Self>, value: Option<&str>) -> (r: Self)
        ensures
            *final(chosen) == Some(r),
            r == match *old(chosen) {
                Some(codec) => codec,
                None => codec_of(value),
            },
    {
        match *chosen {
            Some(codec) => codec,
            None => {
                let codec = Self::from_config_value(value);
                *chosen = Some(codec);
                codec
            },
        }
    }

    pub fn from_config_value(value: Option<&str>) -> (r: Self)
        ensures
            r == codec_of(value),
    {
        match value {
            None => RequestPlanePayloadCodec::Msgpack,
            Some(value) => {
                if text::same_text(value, "json") {
                    RequestPlanePayloadCodec::Json
                } else {
                    RequestPlanePayloadCodec::Msgpack
                }
            },
        }
    }

    /// Whether a configuration value names a codec or leaves it to the default.
    pub fn is_valid_config_value(value: Option<&str>) -> (r: bool)
        ensures
            r == (value is None || value->0@ == ""@ || value->0@ == "msgpack"@ || value->0@
                == "json"@),
    {
        match value {
            None => true,
            Some(value) => text::same_text(value, "") || text::same_text(value, "msgpack")
                || text::same_text(value, "json"),
        }
    }

    pub fn name(&self) -> (r: &'static str)
        ensures
            r@ == match *self {
                RequestPlanePayloadCodec::Json => "json"@,
                RequestPlanePayloadCodec::Msgpack => "msgpack"@,
            },
    {
        match self {
            RequestPlanePayloadCodec::Json => "json",
            RequestPlanePayloadCodec::Msgpack => "msgpack",
        }
    }
}

/// Configuring a codec by its name selects it.
pub proof fn codec_names_select_codecs(json: &str, msgpack: &str)
    requires
        json@ == "json"@,
        msgpack@ == "msgpack"@,
    ensures
        codec_of(Some(json)) == RequestPlanePayloadCodec::Json,
        codec_of(Some(msgpack)) == RequestPlanePayloadCodec::Msgpack,
{
    reveal_strlit("json");
    reveal_strlit("msgpack");
    assert("json"@.len() != "msgpack"@.len());
}

#[derive(Clone, Copy, Debug, PartialEq, Eq, Hash, Structural)]
pub enum StreamType {
    Request,
    Response,
}

#[derive(Clone, Copy, Debug, PartialEq, Eq, Structural)]
pub enum RequestType {
    SingleIn,
    ManyIn,
}

#[derive(Clone, Copy, Debug, PartialEq, Eq, Structural)]
pub enum ResponseType {
    SingleOut,
    ManyOut,
}

#[derive(Clone, Copy, Debug, PartialEq, Eq, Structural)]
pub enum ControlMessage {
    Stop,
    Kill,
    Sentinel,
}

/// Where a stream is to be dialled: the transport, and what that transport
/// needs to know, as text of its own.
#[derive(Debug)]
pub struct ConnectionInfo {
    pub transport: String,
    pub info: String,
}

impl Clone for ConnectionInfo {
    fn clone(&self) -> (r: Self)
        ensures
            r.transport@ == self.transport@,
            r.info@ == self.info@,
    {
        ConnectionInfo { transport: self.transport.clone(), info: self.info.clone() }
    }
}

/// A stream that is registered with its server until it is taken over.
///
/// `T` provides the stream once it is connected, and `C` undoes the
/// registration.
pub struct RegisteredStream<T, C> {
    pub connection_info: ConnectionInfo,
    pub stream_provider: T,
    pub registration_id: Option<u128>,
    /// What undoes the registration if the stream is not taken over.
    pub cleanup: Option<C>,
}

impl<T, C> RegisteredStream<T, C> {
    pub fn new(connection_info: ConnectionInfo, stream_provider: T) -> (r: Self)
        ensures
            r.connection_info == connection_info,
            r.stream_provider == stream_provider,
            r.registration_id is None,
            r.cleanup is None,
    {
        RegisteredStream { connection_info, stream_provider, registration_id: None, cleanup: None }
    }

    pub fn with_registration_id(self, registration_id: u128) -> (r: Self)
        ensures
            r.connection_info == self.connection_info,
            r.stream_provider == self.stream_provider,
            r.registration_id == Some(registration_id),
            r.cleanup == self.cleanup,
    {
        RegisteredStream {
            connection_info: self.connection_info,
            stream_provider: self.stream_provider,
            registration_id: Some(registration_id),
            cleanup: self.cleanup,
        }
    }

    pub fn registration_id(&self) -> (r: Option<u128>)
        ensures
            r == self.registration_id,
    {
        self.registration_id
    }

    pub fn with_cleanup(self, cleanup: C) -> (r: Self)
        ensures
            r.connection_info == self.connection_info,
            r.stream_provider == self.stream_provider,
            r.registration_id == self.registration_id,
            r.cleanup == Some(cleanup),
    {
        RegisteredStream {
            connection_info: self.connection_info,
            stream_provider: self.stream_provider,
            registration_id: self.registration_id,
            cleanup: Some(cleanup),
        }
    }

    /// Takes the stream over. The registration is no longer undone.
    pub fn into_parts(self) -> (r: (ConnectionInfo, T))
        ensures
            r == (self.connection_info, self.stream_provider),
    {
        (self.connection_info, self.stream_provider)
    }

    /// Gives the stream up, and returns what undoes its registration.
    pub fn abandon(self) -> (r: Option<C>)
        ensures
            r == self.cleanup,
    {
        self.cleanup
    }
}

/// A response item as it crosses the network. The last one of a stream that
/// came to its end says so and holds nothing.
#[derive(Debug, PartialEq, Eq)]
pub struct NetworkStreamWrapper<U> {
    pub data: Option<U>,
    pub complete_final: bool,
}

/// One response item encoded for the request plane.
#[derive(Debug)]
pub struct EncodedResponseFrame {
    pub bytes: Vec<u8>,
    pub is_error: bool,
    /// Stop consuming the engine stream after publishing this frame. The
    /// normal complete-final frame is still sent.
    pub stop_stream: bool,
}

/// Default adapter for ordinary request and response types.
#[derive(Clone, Copy, Debug, Default)]
pub struct SerdeIngressPayloadAdapter;

impl SerdeIngressPayloadAdapter {
    pub fn wrap<U>(&self, response: Option<U>, complete_final: bool) -> (r: NetworkStreamWrapper<U>)
        ensures
            r.data == response,
            r.complete_final == complete_final,
    {
        NetworkStreamWrapper { data: response, complete_final }
    }

    /// The frame for an encoded item. `error` tells of the item, where there
    /// is one, whether it reports an error.
    pub fn frame(&self, bytes: Vec<u8>, error: Option<bool>) -> (r: EncodedResponseFrame)
        ensures
            r.bytes == bytes,
            r.is_error == (error == Some(true)),
            !r.stop_stream,
    {
        let is_error = match error {
            Some(is_error) => is_error,
            None => false,
        };
        EncodedResponseFrame { bytes, is_error, stop_stream: false }
    }
}

/// A part of an ingress that was already set.
#[derive(Clone, Copy, Debug, PartialEq, Eq, Structural)]
pub enum IngressError {
    SegmentAlreadySet,
    MetricsAlreadySet,
    ClientPoolAlreadySet,
}

/// The parts of an ingress, each set at most once.
pub struct Ingress<S, M, P, Adapter> {
    segment: Option<S>,
    metrics: Option<M>,
    quic_response_client_pool: Option<P>,
    payload_adapter: Adapter,
}

#[verifier::ext_equal]
pub struct IngressView<S, M, P, Adapter> {
    pub segment: Option<S>,
    pub metrics: Option<M>,
    pub client_pool: Option<P>,
    pub payload_adapter: Adapter,
}

impl<S, M, P, Adapter> View for Ingress<S, M, P, Adapter> {
    type V = IngressView<S, M, P, Adapter>;

    closed spec fn view(&self) -> IngressView<S, M, P, Adapter> {
        IngressView {
            segment: self.segment,
            metrics: self.metrics,
            client_pool: self.quic_response_client_pool,
            payload_adapter: self.payload_adapter,
        }
    }
}

impl<S, M, P> Ingress<S, M, P, SerdeIngressPayloadAdapter> {
    pub fn new() -> (r: Self)
        ensures
            r@ == (IngressView {
                segment: None::<S>,
                metrics: None::<M>,
                client_pool: None::<P>,
                payload_adapter: SerdeIngressPayloadAdapter,
            }),
    {
        Ingress::new_with_adapter(SerdeIngressPayloadAdapter)
    }

    /// An ingress for a segment.
    pub fn link(segment: S) -> (r: Result<Self, IngressError>)
        ensures
            r is Ok,
            r->Ok_0@ == (IngressView {
                segment: Some(segment),
                metrics: None::<M>,
                client_pool: None::<P>,
                payload_adapter: SerdeIngressPayloadAdapter,
            }),
    {
        let mut ingress = Ingress::new();
        match ingress.attach(segment) {
            Ok(()) => Ok(ingress),
            Err(error) => Err(error),
        }
    }

    /// An ingress for a segment.
    pub fn for_pipeline(segment: S) -> (r: Result<Self, IngressError>)
        ensures
            r is Ok,
            r->Ok_0@ == (IngressView {
                segment: Some(segment),
                metrics: None::<M>,
                client_pool: None::<P>,
                payload_adapter: SerdeIngressPayloadAdapter,
            }),
    {
        Self::link(segment)
    }
}

impl<S, M, P, Adapter> Ingress<S, M, P, Adapter> {
    pub fn new_with_adapter(payload_adapter: Adapter) -> (r: Self)
        ensures
            r@ == (IngressView {
                segment: None::<S>,
                metrics: None::<M>,
                client_pool: None::<P>,
                payload_adapter,
            }),
    {
        Ingress {
            segment: None,
            metrics: None,
            quic_response_client_pool: None,
            payload_adapter,
        }
    }

    pub fn attach(&mut self, segment: S) -> (r: Result<(), IngressError>)
        ensures
            old(self)@.segment is Some ==> r == Err::<(), IngressError>(
                IngressError::SegmentAlreadySet,
            ) && final(self)@ == old(self)@,
            old(self)@.segment is None ==> r is Ok && final(self)@ == (IngressView {
                segment: Some(segment),
                ..old(self)@
            }),
    {
        if self.segment.is_some() {
            return Err(IngressError::SegmentAlreadySet);
        }
        self.segment = Some(segment);
        Ok(())
    }

    pub fn set_quic_response_client_pool(&mut self, pool: P) -> (r: Result<(), IngressError>)
        ensures
            old(self)@.client_pool is Some ==> r == Err::<(), IngressError>(
                IngressError::ClientPoolAlreadySet,
            ) && final(self)@ == old(self)@,
            old(self)@.client_pool is None ==> r is Ok && final(self)@ == (IngressView {
                client_pool: Some(pool),
                ..old(self)@
            }),
    {
        if self.quic_response_client_pool.is_some() {
            return Err(IngressError::ClientPoolAlreadySet);
        }
        self.quic_response_client_pool = Some(pool);
        Ok(())
    }

    /// The client pool that was set, if any.
    pub fn quic_response_client_pool(&self) -> (r: Option<&P>)
        ensures
            r is Some <==> self@.client_pool is Some,
            r is Some ==> *r->0 == self@.client_pool->0,
    {
        self.quic_response_client_pool.as_ref()
    }

    /// Settles on a client pool if none was set yet.
    pub fn quic_response_client_pool_or(&mut self, pool: P)
        ensures
            final(self)@ == (IngressView {
                client_pool: match old(self)@.client_pool {
                    Some(set) => Some(set),
                    None => Some(pool),
                },
                ..old(self)@
            }),
    {
        if self.quic_response_client_pool.is_none() {
            self.quic_response_client_pool = Some(pool);
        }
    }

    pub fn add_metrics(&mut self, metrics: M) -> (r: Result<(), IngressError>)
        ensures
            old(self)@.metrics is Some ==> r == Err::<(), IngressError>(
                IngressError::MetricsAlreadySet,
            ) && final(self)@ == old(self)@,
            old(self)@.metrics is None ==> r is Ok && final(self)@ == (IngressView {
                metrics: Some(metrics),
                ..old(self)@
            }),
    {
        if self.metrics.is_some() {
            return Err(IngressError::MetricsAlreadySet);
        }
        self.metrics = Some(metrics);
        Ok(())
    }

    pub fn metrics(&self) -> (r: Option<&M>)
        ensures
            r is Some <==> self@.metrics is Some,
            r is Some ==> *r->0 == self@.metrics->0,
    {
        self.metrics.as_ref()
    }
}

/// JSON is used just where the configuration says so.
pub proof fn only_json_selects_json(value: Option<&str>)
    ensures
        codec_of(value) == RequestPlanePayloadCodec::Json <==> value is Some && value->0@
            == "json"@,
        codec_of(value) == RequestPlanePayloadCodec::Msgpack <==> value is None || value->0@
            != "json"@,
{
}

} // verus!
