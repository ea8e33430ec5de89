//! The frontend's side: responses that it expects from workers.

use crate::instances::EndpointInstanceId;
use crate::quic::config;
use crate::quic::config::{ConfigError, QuicResponseConfig, QuicResponseEnv};
use crate::quic::connection;
use crate::quic::connection::{
    format_id, random_id, QuicResponseConnectionInfo, PROTOCOL_VERSION,
};
use crate::quic::fingerprint;
use crate::quic::fingerprint::certificate_fingerprint;
use crate::quic::client;
use crate::quic::frame::{Frame, FrameKind, FrameView};
use crate::quic::response_slot::Slot;
use crate::quic::server_state::{Removed, ServerModel, ServerState};
use vstd::prelude::*;

verus! {

/// A frontend that takes responses.
#[verifier::reject_recursive_types(P)]
#[verifier::reject_recursive_types(A)]
pub struct QuicResponseServer<P, A> {
    pub advertised_address: String,
    pub frontend_id: String,
    pub certificate_sha256: String,
    pub response_buffer_capacity: usize,
    pub priority_prologue_stream: bool,
    pub state: ServerState<P, A>,
}

/// The address to announce: the one asked for, or where its port was left open
/// the one that was bound.
fn announced_address(advertised: &str, advertised_port: u16, local: &str) -> (r: String)
    ensures
        r@ == if advertised_port == 0 {
            local@
        } else {
            advertised@
        },
{
    if advertised_port == 0 {
        local.to_owned()
    } else {
        advertised.to_owned()
    }
}

impl<P, A> QuicResponseServer<P, A> {
    /// Everything but the table of responses is as it was.
    pub open spec fn same_identity(self, other: Self) -> bool {
        &&& self.advertised_address@ == other.advertised_address@
        &&& self.frontend_id@ == other.frontend_id@
        &&& self.certificate_sha256@ == other.certificate_sha256@
        &&& self.response_buffer_capacity == other.response_buffer_capacity
        &&& self.priority_prologue_stream == other.priority_prologue_stream
    }

    /// A frontend configured by the environment. `local` is the address that
    /// was bound, and `certificate` the one it presents.
    pub fn new(
        certificate: &[u8],
        advertised: &str,
        advertised_port: u16,
        local: &str,
        env: &QuicResponseEnv,
    ) -> (r: Result<Self, ConfigError>)
        ensures
            match r {
                Err(error) => config::config_reading(*env) == Err::<
                    QuicResponseConfig,
                    ConfigError,
                >(error),
                Ok(server) => {
                    let reading = config::config_reading(*env);
                    &&& reading is Ok
                    &&& server.state.wf()
                    &&& server.state@ == ServerModel::<P, A>::empty()
                    &&& server.advertised_address@ == if advertised_port == 0 {
                        local@
                    } else {
                        advertised@
                    }
                    &&& server.certificate_sha256@ == fingerprint::hex_text(
                        fingerprint::sha256(certificate@),
                    )
                    &&& server.response_buffer_capacity == reading->Ok_0.response_buffer_capacity
                    &&& server.priority_prologue_stream == reading->Ok_0.priority_prologue_stream
                    &&& exists|id: u128| #[trigger] connection::id_text(id) == server.frontend_id@
                },
            },
    {
        match QuicResponseConfig::from_env(env) {
            Err(error) => Err(error),
            Ok(config) => Ok(
                Self::new_with_config(certificate, advertised, advertised_port, local, &config),
            ),
        }
    }

    pub fn new_with_config(
        certificate: &[u8],
        advertised: &str,
        advertised_port: u16,
        local: &str,
        config: &QuicResponseConfig,
    ) -> (r: Self)
        ensures
            r.state.wf(),
            r.state@ == ServerModel::<P, A>::empty(),
            r.advertised_address@ == if advertised_port == 0 {
                local@
            } else {
                advertised@
            },
            r.certificate_sha256@ == fingerprint::hex_text(fingerprint::sha256(certificate@)),
            r.response_buffer_capacity == config.response_buffer_capacity,
            r.priority_prologue_stream == config.priority_prologue_stream,
            exists|id: u128| #[trigger] connection::id_text(id) == r.frontend_id@,
    {
        let id: u128 = random_id();
        QuicResponseServer {
            advertised_address: announced_address(advertised, advertised_port, local),
            frontend_id: format_id(id),
            certificate_sha256: certificate_fingerprint(certificate),
            response_buffer_capacity: config.response_buffer_capacity,
            priority_prologue_stream: config.priority_prologue_stream,
            state: ServerState::new(),
        }
    }

    /// Registers a response to `request_id`, and tells where to send it.
    pub fn register_response(&mut self, request_id: &str, handle: P, now: u64) -> (r:
        QuicResponseConnectionInfo)
        requires
            old(self).state.wf(),
        ensures
            final(self).state.wf(),
            final(self).same_identity(*old(self)),
            final(self).state@ == old(self).state@.registered(r.registration_id, handle, now),
            r.version == PROTOCOL_VERSION,
            r.address@ == old(self).advertised_address@,
            r.frontend_id@ == old(self).frontend_id@,
            r.request_id@ == request_id@,
            r.certificate_sha256@ == old(self).certificate_sha256@,
    {
        let id: u128 = random_id();
        self.register_with_id(id, request_id, handle, now)
    }

    /// Registers a response under a given id.
    pub fn register_with_id(&mut self, id: u128, request_id: &str, handle: P, now: u64) -> (r:
        QuicResponseConnectionInfo)
        requires
            old(self).state.wf(),
        ensures
            final(self).state.wf(),
            final(self).same_identity(*old(self)),
            final(self).state@ == old(self).state@.registered(id, handle, now),
            r.version == PROTOCOL_VERSION,
            r.address@ == old(self).advertised_address@,
            r.frontend_id@ == old(self).frontend_id@,
            r.registration_id == id,
            r.request_id@ == request_id@,
            r.certificate_sha256@ == old(self).certificate_sha256@,
    {
        self.state.register(id, handle, now);
        QuicResponseConnectionInfo {
            version: PROTOCOL_VERSION,
            address: self.advertised_address.clone(),
            frontend_id: self.frontend_id.clone(),
            registration_id: id,
            request_id: request_id.to_owned(),
            certificate_sha256: self.certificate_sha256.clone(),
        }
    }

    /// Associates a registration with the instance that serves it, or forgets
    /// it where the instance was removed a moment ago.
    pub fn associate_instance(
        &mut self,
        registration_id: u128,
        id: &EndpointInstanceId,
        now: u64,
    ) -> (r: Result<(), Removed<P, A>>)
        requires
            old(self).state.wf(),
        ensures
            final(self).state.wf(),
            final(self).same_identity(*old(self)),
            r is Err <==> old(self).state@.is_tombstoned(id@, now),
            r is Err ==> r->Err_0@ == old(self).state@.slot(registration_id)
                && final(self).state@ == old(self).state@.pruned(now).without(
                set![registration_id],
            ),
            r is Ok ==> final(self).state@ == old(self).state@.pruned(now).associated(
                registration_id,
                id@,
            ),
    {
        self.state.associate_instance(registration_id, id, now)
    }

    /// Forgets a registration.
    pub fn cancel_response(&mut self, registration_id: u128) -> (r: Removed<P, A>)
        requires
            old(self).state.wf(),
        ensures
            final(self).state.wf(),
            final(self).same_identity(*old(self)),
            r@ == old(self).state@.slot(registration_id),
            final(self).state@ == old(self).state@.without(set![registration_id]),
    {
        self.state.remove_registration(registration_id)
    }

    /// Forgets every registration of an instance and refuses new ones for a
    /// while. Returns one entry for each, oldest first.
    pub fn cancel_instance_streams(&mut self, id: &EndpointInstanceId, now: u64) -> (r: Vec<
        (u128, Removed<P, A>),
    >)
        requires
            old(self).state.wf(),
        ensures
            final(self).state.wf(),
            final(self).same_identity(*old(self)),
            final(self).state@ == old(self).state@.cancelled(id@, now),
            r@.len() == old(self).state@.registrations_of(id@).len(),
            forall|i: int|
                #![trigger r@[i]]
                0 <= i < r@.len() ==> {
                    let list = old(self).state@.registrations_of(id@);
                    &&& r@[i].0 == list[i]
                    &&& r@[i].1@ == if list.take(i).contains(list[i]) {
                        Slot::empty()
                    } else {
                        old(self).state@.slot(list[i])
                    }
                },
    {
        self.state.cancel_instance_streams(id, now)
    }

    /// Lets an instance take registrations again.
    pub fn clear_instance_tombstone(&mut self, id: &EndpointInstanceId)
        requires
            old(self).state.wf(),
        ensures
            final(self).state.wf(),
            final(self).same_identity(*old(self)),
            final(self).state@ == (ServerModel {
                removed_instances: old(self).state@.removed_instances.remove(id@),
                ..old(self).state@
            }),
    {
        self.state.clear_instance_tombstone(id)
    }
}

/// The bundle that a lane belongs to, which its first frame has to tell.
pub fn lane_bundle(first: &Frame) -> (r: Option<u128>)
    ensures
        r == if first.kind == FrameKind::Bundle && first.payload@.len() == 0 {
            Some(first.registration_id)
        } else {
            None
        },
{
    match first.kind {
        FrameKind::Bundle => {
            if first.payload.len() == 0 {
                Some(first.registration_id)
            } else {
                None
            }
        },
        _ => None,
    }
}

/// What may happen to the reader of a response.
#[derive(Clone, Copy, Debug, PartialEq, Eq, Structural)]
pub enum MonitorEvent {
    /// The response is over.
    Cancelled,
    Killed,
    Stopped,
    /// Nobody reads the response any more.
    Closed,
}

/// The frame that tells the worker, if any, and whether to go on watching.
pub open spec fn monitor_reaction(event: MonitorEvent) -> (Option<FrameKind>, bool) {
    match event {
        MonitorEvent::Cancelled => (None, false),
        MonitorEvent::Killed => (Some(FrameKind::Kill), false),
        MonitorEvent::Stopped => (Some(FrameKind::Stop), true),
        MonitorEvent::Closed => (Some(FrameKind::Reset), false),
    }
}

/// Watches the reader of a response on behalf of the worker.
#[derive(Clone, Copy, Debug)]
pub struct ResponseMonitor {
    /// Whether the worker was told to stop. It is told once.
    pub stop_sent: bool,
}

impl ResponseMonitor {
    pub fn new() -> (r: Self)
        ensures
            !r.stop_sent,
    {
        ResponseMonitor { stop_sent: false }
    }

    /// Reacts to `event`. After `Stopped` that event is not awaited again.
    pub fn react(&mut self, event: MonitorEvent) -> (r: (Option<FrameKind>, bool))
        requires
            event == MonitorEvent::Stopped ==> !old(self).stop_sent,
        ensures
            r == monitor_reaction(event),
            final(self).stop_sent == (old(self).stop_sent || event == MonitorEvent::Stopped),
    {
        match event {
            MonitorEvent::Cancelled => (None, false),
            MonitorEvent::Killed => (Some(FrameKind::Kill), false),
            MonitorEvent::Stopped => {
                self.stop_sent = true;
                (Some(FrameKind::Stop), true)
            },
            MonitorEvent::Closed => (Some(FrameKind::Reset), false),
        }
    }
}

/// What happens to a request at the frontend happens to it at the worker: one
/// that is killed there is killed, one that is stopped is stopped, and one whose
/// response nobody reads any more is killed. A response that is over tells
/// nothing. Only after a stop the reader is still watched.
pub proof fn cancellation_reaches_the_worker<H>(
    contexts: client::ClientContextsView<H>,
    id: u128,
    event: MonitorEvent,
)
    requires
        contexts.contexts.contains_key(id),
    ensures
        ({
            let (kind, watching) = monitor_reaction(event);
            let told = |kind: FrameKind|
                contexts.control(
                    (FrameView { kind, registration_id: id, payload: Seq::empty() }),
                );
            &&& event == MonitorEvent::Cancelled ==> kind is None && !watching
            &&& event == MonitorEvent::Killed ==> kind is Some && !watching && (told(kind->0)
                matches Ok(action) && action is Kill)
            &&& event == MonitorEvent::Stopped ==> kind is Some && watching && (told(kind->0)
                matches Ok(action) && action is Stop)
            &&& event == MonitorEvent::Closed ==> kind is Some && !watching && (told(kind->0)
                matches Ok(action) && action is Kill)
            &&& event == MonitorEvent::Killed ==> kind == Some(FrameKind::Kill)
            &&& event == MonitorEvent::Stopped ==> kind == Some(FrameKind::Stop)
            &&& event == MonitorEvent::Closed ==> kind == Some(FrameKind::Reset)
        }),
{
}

} // verus!
