//! The worker's side: its connections to a frontend and the responses that
//! are being sent over them.

use crate::keyed_table::{KeyedTable, TableKey};
use crate::quic::config;
use crate::quic::config::{ConfigError, QuicResponseConfig, QuicResponseEnv};
use crate::quic::connection::QuicResponseConnectionInfo;
use crate::quic::frame;
use crate::quic::frame::{Frame, FrameKind, FrameView};
use crate::quic::id_map::keys_of;
use crate::text;
use std::collections::HashMap;
use vstd::prelude::*;

verus! {

broadcast use vstd::std_specs::hash::group_hash_axioms;

/// The XXH3 hash of `bytes`.
pub uninterp spec fn xxh3(bytes: Seq<u8>) -> u64;

/// `xxhash_rust::xxh3::xxh3_64`: the same hash for the same bytes.
#[verifier::external_body]
fn xxh3_hash(bytes: &[u8]) -> (r: u64)
    ensures
        r == xxh3(bytes@),
{
    xxhash_rust::xxh3::xxh3_64(bytes)
}

/// The lane that a hash selects.
pub fn pick_lane(hash: u64, lanes: usize) -> (r: usize)
    requires
        lanes > 0,
    ensures
        r == (hash as usize) % lanes,
        r < lanes,
{
    #[verifier::truncate]
    let word: usize = hash as usize;
    word % lanes
}

/// The lane of a request, the same for all of its frames.
pub fn lane_index(request_id: &str, lanes: usize) -> (r: usize)
    requires
        lanes > 0,
    ensures
        r == (xxh3(vstd::utf8::encode_utf8(request_id@)) as usize) % lanes,
        r < lanes,
{
    pick_lane(xxh3_hash(request_id.as_bytes()), lanes)
}

/// The connections that one lane uses.
#[derive(Clone, Copy, Debug, PartialEq, Eq, Structural)]
pub struct LanePlan {
    pub index: usize,
    /// The connection of its ordered stream.
    pub connection: usize,
    /// The connection of its priority stream, where it has one.
    pub priority_connection: Option<usize>,
}

/// The connections and lanes of a bundle.
#[derive(Debug)]
pub struct BundlePlan {
    pub connections: usize,
    pub lanes: Vec<LanePlan>,
}

/// The number of the connection for priority streams, if there is one.
pub open spec fn priority_number(config: QuicResponseConfig) -> Option<usize> {
    if config.priority_prologue_stream {
        Some(config.connections)
    } else {
        None
    }
}

/// How lane `index` is carried.
pub open spec fn lane_plan(config: QuicResponseConfig, index: int) -> LanePlan {
    LanePlan {
        index: index as usize,
        connection: (index % config.connections as int) as usize,
        priority_connection: priority_number(config),
    }
}

/// Lays out the connections and lanes of a bundle.
pub fn connect(config: &QuicResponseConfig) -> (r: BundlePlan)
    requires
        0 < config.connections < usize::MAX,
    ensures
        r.connections == config.connections + (if config.priority_prologue_stream {
            1int
        } else {
            0
        }),
        r.lanes@ == Seq::new(config.lanes as nat, |index: int| lane_plan(*config, index)),
{
    let priority_connection: Option<usize> = if config.priority_prologue_stream {
        Some(config.connections)
    } else {
        None
    };
    let connections: usize = if config.priority_prologue_stream {
        config.connections + 1
    } else {
        config.connections
    };
    let mut lanes: Vec<LanePlan> = Vec::new();
    let mut index: usize = 0;
    while index < config.lanes
        invariant
            index <= config.lanes,
            0 < config.connections,
            priority_connection == priority_number(*config),
            lanes@ == Seq::new(index as nat, |i: int| lane_plan(*config, i)),
        decreases config.lanes - index,
    {
        let connection: usize = index % config.connections;
        lanes.push(LanePlan { index, connection, priority_connection });
        index += 1;
        assert(lanes@ =~= Seq::new(index as nat, |i: int| lane_plan(*config, i)));
    }
    BundlePlan { connections, lanes }
}

/// Every lane goes over a connection that exists, and no connection is left
/// without a lane. Priority streams share a connection with no ordered one.
pub proof fn lanes_cover_connections(config: QuicResponseConfig, connection: int)
    requires
        config.wf(),
        0 <= connection < config.connections,
    ensures
        connection < config.lanes,
        lane_plan(config, connection).connection == connection,
        forall|index: int|
            0 <= index < config.lanes ==> (#[trigger] lane_plan(config, index)).connection
                < config.connections,
        priority_number(config) is Some ==> priority_number(config)->0
            >= config.connections,
{
    let n = config.connections as int;
    assert(connection % n == connection) by (nonlinear_arith)
        requires
            0 <= connection < n,
    ;
    assert forall|index: int| 0 <= index < config.lanes implies (#[trigger] lane_plan(
        config,
        index,
    )).connection < config.connections by {
        let n = config.connections as int;
        assert(0 <= index % n < n) by (nonlinear_arith)
            requires
                0 <= index,
                0 < n,
        ;
    }
}

/// Which frontend a bundle leads to.
#[derive(Debug, PartialEq, Eq, Hash)]
pub struct ConnectionKey {
    pub address: String,
    pub frontend_id: String,
    pub certificate_sha256: String,
}

#[verifier::ext_equal]
pub struct KeyView {
    pub address: Seq<char>,
    pub frontend_id: Seq<char>,
    pub certificate_sha256: Seq<char>,
}

impl View for ConnectionKey {
    type V = KeyView;

    open spec fn view(&self) -> KeyView {
        KeyView {
            address: self.address@,
            frontend_id: self.frontend_id@,
            certificate_sha256: self.certificate_sha256@,
        }
    }
}

impl Clone for ConnectionKey {
    fn clone(&self) -> (r: Self)
        ensures
            r@ == self@,
    {
        ConnectionKey {
            address: self.address.clone(),
            frontend_id: self.frontend_id.clone(),
            certificate_sha256: self.certificate_sha256.clone(),
        }
    }
}

impl ConnectionKey {
    /// The frontend that expects a response, if the response belongs to the
    /// request `context_id`.
    pub fn for_request(info: &QuicResponseConnectionInfo, context_id: &str) -> (r: Option<Self>)
        ensures
            r is Some <==> info.request_id@ == context_id@,
            r is Some ==> r->0@ == (KeyView {
                address: info.address@,
                frontend_id: info.frontend_id@,
                certificate_sha256: info.certificate_sha256@,
            }),
    {
        if !text::same_text(info.request_id.as_str(), context_id) {
            return None;
        }
        Some(
            ConnectionKey {
                address: info.address.clone(),
                frontend_id: info.frontend_id.clone(),
                certificate_sha256: info.certificate_sha256.clone(),
            },
        )
    }
}

impl TableKey for ConnectionKey {
    type Key = KeyView;

    open spec fn key(&self) -> KeyView {
        self@
    }

    fn same(&self, other: &ConnectionKey) -> (r: bool) {
        self.address == other.address && self.frontend_id == other.frontend_id
            && self.certificate_sha256 == other.certificate_sha256
    }

    fn duplicate(&self) -> (r: Self) {
        self.clone()
    }
}

/// The bundles in use, at most one for each frontend.
#[verifier::reject_recursive_types(B)]
pub struct QuicResponseClientPool<B> {
    pub config: QuicResponseConfig,
    pub bundles: KeyedTable<ConnectionKey, B>,
}

impl<B> QuicResponseClientPool<B> {
    pub fn new(config: QuicResponseConfig) -> (r: Self)
        ensures
            r.bundles.wf(),
            r.config == config,
            r.bundles@ == Map::<KeyView, B>::empty(),
    {
        QuicResponseClientPool { config, bundles: KeyedTable::new() }
    }

    /// A pool configured by the environment.
    pub fn from_env(env: &QuicResponseEnv) -> (r: Result<Self, ConfigError>)
        ensures
            match r {
                Ok(pool) => {
                    &&& pool.bundles.wf()
                    &&& config::config_reading(*env) == Ok::<QuicResponseConfig, ConfigError>(
                        pool.config,
                    )
                    &&& pool.config.wf()
                    &&& pool.bundles@ == Map::<KeyView, B>::empty()
                },
                Err(error) => config::config_reading(*env) == Err::<
                    QuicResponseConfig,
                    ConfigError,
                >(error),
            },
    {
        match QuicResponseConfig::from_env(env) {
            Ok(config) => Ok(Self::new(config)),
            Err(error) => Err(error),
        }
    }

    /// The bundle that leads to a frontend, whether it can be used or not.
    pub fn connection(&self, key: &ConnectionKey) -> (r: Option<&B>)
        requires
            self.bundles.wf(),
        ensures
            match r {
                Some(bundle) => self.bundles@.contains_key(key@) && *bundle == self.bundles@[key@],
                None => !self.bundles@.contains_key(key@),
            },
    {
        self.bundles.get(key)
    }

    /// Keeps the bundle that leads to a frontend if it is healthy, and drops it
    /// otherwise. Says whether there is one to use.
    pub fn reuse(&mut self, key: &ConnectionKey, healthy: bool) -> (r: bool)
        requires
            old(self).bundles.wf(),
        ensures
            final(self).bundles.wf(),
            final(self).config == old(self).config,
            r == (healthy && old(self).bundles@.contains_key(key@)),
            final(self).bundles@ == if r {
                old(self).bundles@
            } else {
                old(self).bundles@.remove(key@)
            },
    {
        if healthy && self.bundles.contains(key) {
            return true;
        }
        self.bundles.remove(key);
        false
    }

    /// Publishes a new bundle, the only one for its frontend.
    pub fn publish(&mut self, key: ConnectionKey, bundle: B)
        requires
            old(self).bundles.wf(),
        ensures
            final(self).bundles.wf(),
            final(self).config == old(self).config,
            final(self).bundles@ == old(self).bundles@.insert(key@, bundle),
    {
        self.bundles.insert(key, bundle);
    }
}

/// A response that is being sent. `handle` is what its request is told by.
pub struct ClientResponseContext<H> {
    pub handle: H,
    pub cancellation_recorded: bool,
}

/// What a bundle keeps of the responses that go over it.
pub struct ClientContexts<H> {
    contexts: HashMap<u128, ClientResponseContext<H>>,
    healthy: bool,
}

#[verifier::ext_equal]
pub struct ClientContextsView<H> {
    pub contexts: Map<u128, ClientResponseContext<H>>,
    /// Whether the bundle has not failed.
    pub healthy: bool,
}

impl<H> View for ClientContexts<H> {
    type V = ClientContextsView<H>;

    closed spec fn view(&self) -> ClientContextsView<H> {
        ClientContextsView { contexts: self.contexts@, healthy: self.healthy }
    }
}

/// What a request is told.
#[derive(Clone, Copy, Debug, PartialEq, Eq, Structural)]
pub enum ControlAction {
    /// Nothing: the response is not known any more.
    Ignore,
    /// To stop. `count` says whether its cancellation is to be counted.
    Stop { count: bool },
    /// To give up at once.
    Kill { count: bool },
}

/// Why a frame from the frontend breaks the protocol.
#[derive(Clone, Copy, Debug, PartialEq, Eq, Structural)]
pub enum ControlError {
    Payload,
    ForwardOnly { kind: FrameKind },
}

impl<H> ClientContextsView<H> {
    /// Whether the cancellation of a response has not been counted.
    pub open spec fn uncounted(self, id: u128) -> bool {
        self.contexts.contains_key(id) && !self.contexts[id].cancellation_recorded
    }

    pub open spec fn counted(self, id: u128) -> Self {
        if self.contexts.contains_key(id) {
            ClientContextsView {
                contexts: self.contexts.insert(
                    id,
                    ClientResponseContext {
                        cancellation_recorded: true,
                        ..self.contexts[id]
                    },
                ),
                ..self
            }
        } else {
            self
        }
    }

    /// What a frame from the frontend asks for.
    pub open spec fn control(self, frame: FrameView) -> Result<ControlAction, ControlError> {
        let id = frame.registration_id;
        if frame.payload.len() != 0 {
            Err(ControlError::Payload)
        } else if frame.kind == FrameKind::Stop {
            Ok(
                if self.contexts.contains_key(id) {
                    ControlAction::Stop { count: self.uncounted(id) }
                } else {
                    ControlAction::Ignore
                },
            )
        } else if frame.kind == FrameKind::Kill || frame.kind == FrameKind::Reset {
            Ok(
                if self.contexts.contains_key(id) {
                    ControlAction::Kill { count: self.uncounted(id) }
                } else {
                    ControlAction::Ignore
                },
            )
        } else {
            Err(ControlError::ForwardOnly { kind: frame.kind })
        }
    }
}

/// Whether a frame is the last of its response on the ordered lane.
pub open spec fn is_terminal(kind: FrameKind) -> bool {
    kind == FrameKind::Error || kind == FrameKind::End
}

/// The responses that `batch` brings to their end.
pub open spec fn terminated_by(batch: Seq<Frame>) -> Set<u128> {
    Set::new(
        |id: u128|
            exists|i: int|
                0 <= i < batch.len() && is_terminal((#[trigger] batch[i]).kind)
                    && batch[i].registration_id == id,
    )
}

impl<H> ClientContexts<H> {
    pub fn new() -> (r: Self)
        ensures
            r@ == (ClientContextsView::<H> { contexts: Map::empty(), healthy: true }),
    {
        ClientContexts { contexts: HashMap::new(), healthy: true }
    }

    /// Whether the bundle can take more responses. `closed` tells of each of
    /// its connections whether it is closed.
    pub fn is_healthy(&self, closed: &[bool]) -> (r: bool)
        ensures
            r == (self@.healthy && forall|i: int| 0 <= i < closed@.len() ==> !#[trigger] closed@[i]),
    {
        if !self.healthy {
            return false;
        }
        let mut i: usize = 0;
        while i < closed.len()
            invariant
                i <= closed@.len(),
                forall|j: int| 0 <= j < i ==> !#[trigger] closed@[j],
            decreases closed@.len() - i,
        {
            if closed[i] {
                return false;
            }
            i += 1;
        }
        true
    }

    pub fn insert(&mut self, id: u128, handle: H)
        ensures
            final(self)@ == (ClientContextsView {
                contexts: old(self)@.contexts.insert(
                    id,
                    (ClientResponseContext { handle, cancellation_recorded: false }),
                ),
                ..old(self)@
            }),
    {
        self.contexts.insert(id, ClientResponseContext { handle, cancellation_recorded: false });
    }

    pub fn remove(&mut self, id: u128)
        ensures
            final(self)@ == (ClientContextsView {
                contexts: old(self)@.contexts.remove(id),
                ..old(self)@
            }),
    {
        self.contexts.remove(&id);
    }

    pub fn handle(&self, id: u128) -> (r: Option<&H>)
        ensures
            match r {
                Some(handle) => self@.contexts.contains_key(id) && *handle
                    == self@.contexts[id].handle,
                None => !self@.contexts.contains_key(id),
            },
    {
        match self.contexts.get(&id) {
            Some(context) => Some(&context.handle),
            None => None,
        }
    }

    /// Notes that a cancellation is counted, and says whether it was not yet.
    fn record_cancellation(&mut self, id: u128) -> (r: Option<bool>)
        ensures
            final(self)@ == old(self)@.counted(id),
            r == if old(self)@.contexts.contains_key(id) {
                Some(old(self)@.uncounted(id))
            } else {
                None
            },
    {
        match self.contexts.remove(&id) {
            Some(context) => {
                let count = !context.cancellation_recorded;
                self.contexts.insert(
                    id,
                    ClientResponseContext { handle: context.handle, cancellation_recorded: true },
                );
                assert(self@.contexts =~= old(self)@.counted(id).contexts);
                Some(count)
            },
            None => {
                assert(self@.contexts =~= old(self)@.contexts);
                None
            },
        }
    }

    /// Takes a frame from the frontend.
    pub fn control(&mut self, frame: &Frame) -> (r: Result<ControlAction, ControlError>)
        ensures
            r == old(self)@.control(frame@),
            final(self)@ == if r is Ok {
                old(self)@.counted(frame.registration_id)
            } else {
                old(self)@
            },
    {
        if frame.payload.len() != 0 {
            return Err(ControlError::Payload);
        }
        match frame.kind {
            FrameKind::Stop => match self.record_cancellation(frame.registration_id) {
                Some(count) => Ok(ControlAction::Stop { count }),
                None => Ok(ControlAction::Ignore),
            },
            FrameKind::Kill | FrameKind::Reset => match self.record_cancellation(
                frame.registration_id,
            ) {
                Some(count) => Ok(ControlAction::Kill { count }),
                None => Ok(ControlAction::Ignore),
            },
            kind => Err(ControlError::ForwardOnly { kind }),
        }
    }

    /// Forgets the responses that a written batch brings to their end.
    pub fn batch_written(&mut self, batch: &[Frame])
        ensures
            final(self)@ == (ClientContextsView {
                contexts: old(self)@.contexts.remove_keys(terminated_by(batch@)),
                ..old(self)@
            }),
    {
        let mut i: usize = 0;
        assert(terminated_by(batch@.take(0)) =~= Set::empty());
        assert(self@.contexts =~= self@.contexts.remove_keys(Set::empty()));
        while i < batch.len()
            invariant
                i <= batch@.len(),
                self@.healthy == old(self)@.healthy,
                self@.contexts == old(self)@.contexts.remove_keys(
                    terminated_by(batch@.take(i as int)),
                ),
            decreases batch@.len() - i,
        {
            let ghost before = batch@.take(i as int);
            let ghost after = batch@.take(i + 1);
            let terminal = match batch[i].kind {
                FrameKind::Error | FrameKind::End => true,
                _ => false,
            };
            if terminal {
                self.contexts.remove(&batch[i].registration_id);
            }
            proof {
                let id = batch@[i as int].registration_id;
                assert(forall|j: int| 0 <= j < i ==> before[j] == #[trigger] after[j]);
                assert(after[i as int] == batch@[i as int]);
                assert forall|other: u128| #[trigger]
                    terminated_by(after).contains(other) <==> terminated_by(before).contains(other)
                        || (terminal && other == id) by {
                    if terminated_by(before).contains(other) {
                        let j = choose|j: int|
                            0 <= j < before.len() && is_terminal((#[trigger] before[j]).kind)
                                && before[j].registration_id == other;
                        assert(after[j] == before[j]);
                    }
                }
                assert(self@.contexts =~= old(self)@.contexts.remove_keys(terminated_by(after)));
            }
            i += 1;
        }
        assert(batch@.take(batch@.len() as int) =~= batch@);
    }

    /// Fails the bundle. The first time, every response is given up: returned
    /// are all of them, each with the handle to kill and whether to count a
    /// cancellation. After that there is nothing left to do.
    pub fn fail(&mut self) -> (r: Option<Vec<(u128, H, bool)>>)
        ensures
            !old(self)@.healthy ==> r is None && final(self)@ == old(self)@,
            old(self)@.healthy ==> {
                &&& r is Some
                &&& final(self)@ == (ClientContextsView::<H> {
                    contexts: Map::empty(),
                    healthy: false,
                })
                &&& r->0@.len() == old(self)@.contexts.len()
                &&& forall|i: int|
                    #![trigger r->0@[i]]
                    0 <= i < r->0@.len() ==> {
                        let id = r->0@[i].0;
                        &&& old(self)@.contexts.contains_key(id)
                        &&& r->0@[i].1 == old(self)@.contexts[id].handle
                        &&& r->0@[i].2 == old(self)@.uncounted(id)
                    }
                &&& forall|id: u128| #[trigger]
                    old(self)@.contexts.contains_key(id) ==> exists|i: int|
                        0 <= i < r->0@.len() && (#[trigger] r->0@[i]).0 == id
            },
    {
        if !self.healthy {
            return None;
        }
        self.healthy = false;
        let ids = keys_of(&self.contexts);
        let ghost all = self.contexts@;
        let mut killed: Vec<(u128, H, bool)> = Vec::new();
        let mut i: usize = 0;
        proof {
            assert(ids@.to_set() =~= all.dom());
            ids@.unique_seq_to_set();
        }
        while i < ids.len()
            invariant
                i <= ids@.len(),
                all == old(self)@.contexts,
                ids@.no_duplicates(),
                forall|id: u128| ids@.contains(id) <==> all.contains_key(id),
                !self.healthy,
                killed@.len() == i,
                forall|k: u128| #[trigger]
                    self.contexts@.contains_key(k) ==> all.contains_key(k) && self.contexts@[k]
                        == all[k],
                forall|j: int|
                    i <= j < ids@.len() ==> self.contexts@.contains_key(#[trigger] ids@[j]),
                forall|j: int|
                    0 <= j < i ==> !self.contexts@.contains_key(#[trigger] ids@[j]),
                forall|j: int|
                    #![trigger killed@[j]]
                    0 <= j < i ==> {
                        let id = ids@[j];
                        &&& killed@[j].0 == id
                        &&& all.contains_key(id)
                        &&& killed@[j].1 == all[id].handle
                        &&& killed@[j].2 == !all[id].cancellation_recorded
                    },
            decreases ids@.len() - i,
        {
            let id: u128 = ids[i];
            assert(self.contexts@.contains_key(ids@[i as int]));
            match self.contexts.remove(&id) {
                Some(context) => {
                    killed.push((id, context.handle, !context.cancellation_recorded));
                },
                None => {},
            }
            i += 1;
        }
        proof {
            assert(self.contexts@ =~= Map::empty()) by {
                assert forall|k: u128| !self.contexts@.contains_key(k) by {
                    if self.contexts@.contains_key(k) {
                        assert(ids@.contains(k));
                    }
                }
            }
            assert forall|id: u128| #[trigger] all.contains_key(id) implies exists|j: int|
                0 <= j < killed@.len() && (#[trigger] killed@[j]).0 == id by {
                assert(ids@.contains(id));
                let j = choose|j: int| 0 <= j < ids@.len() && ids@[j] == id;
                assert(killed@[j].0 == id);
            }
        }
        Some(killed)
    }
}

/// A response's cancellation is counted at most once.
pub proof fn cancellation_counts_once<H>(contexts: ClientContextsView<H>, id: u128)
    ensures
        !contexts.counted(id).uncounted(id),
        contexts.counted(id).counted(id) == contexts.counted(id),
{
    assert(contexts.counted(id).counted(id).contexts =~= contexts.counted(id).contexts);
}

/// The chunks that a frame is written as.
pub open spec fn frame_chunks(frame: FrameView) -> Seq<Seq<u8>> {
    if frame.payload.len() == 0 {
        seq![frame.header()]
    } else {
        seq![frame.header(), frame.payload]
    }
}

/// The chunks that a batch is written as.
pub open spec fn batch_chunks(batch: Seq<Frame>) -> Seq<Seq<u8>>
    decreases batch.len(),
{
    if batch.len() == 0 {
        Seq::empty()
    } else {
        batch_chunks(batch.drop_last()) + frame_chunks(batch.last()@)
    }
}

/// The contents of byte buffers.
pub open spec fn buffers(chunks: Seq<Vec<u8>>) -> Seq<Seq<u8>> {
    chunks.map_values(|chunk: Vec<u8>| chunk@)
}

/// Lays out a batch for writing.
pub fn write_chunks(batch: &[Frame]) -> (r: Vec<Vec<u8>>)
    ensures
        buffers(r@) == batch_chunks(batch@),
{
    let mut chunks: Vec<Vec<u8>> = Vec::new();
    let mut i: usize = 0;
    assert(buffers(chunks@) =~= Seq::empty());
    while i < batch.len()
        invariant
            i <= batch@.len(),
            buffers(chunks@) == batch_chunks(batch@.take(i as int)),
        decreases batch@.len() - i,
    {
        let frame = &batch[i];
        let ghost before = chunks@;
        chunks.push(frame.header());
        if frame.payload.len() != 0 {
            chunks.push(vstd::slice::slice_to_vec(frame.payload.as_slice()));
        }
        proof {
            assert(batch@.take(i + 1).drop_last() =~= batch@.take(i as int));
            assert(batch@.take(i + 1).last() == batch@[i as int]);
            assert(buffers(chunks@) =~= buffers(before) + frame_chunks(frame@));
        }
        i += 1;
    }
    assert(batch@.take(batch@.len() as int) =~= batch@);
    chunks
}

/// All of `chunks` one after the other.
pub open spec fn joined(chunks: Seq<Seq<u8>>) -> Seq<u8>
    decreases chunks.len(),
{
    if chunks.len() == 0 {
        Seq::empty()
    } else {
        joined(chunks.drop_last()) + chunks.last()
    }
}

/// The frames of a batch.
pub open spec fn frame_views(batch: Seq<Frame>) -> Seq<FrameView> {
    batch.map_values(|frame: Frame| frame@)
}

proof fn lemma_joined_concat(a: Seq<Seq<u8>>, b: Seq<Seq<u8>>)
    ensures
        joined(a + b) == joined(a) + joined(b),
    decreases b.len(),
{
    if b.len() == 0 {
        assert(a + b =~= a);
        assert(joined(a) + joined(b) =~= joined(a));
    } else {
        lemma_joined_concat(a, b.drop_last());
        assert((a + b).drop_last() =~= a + b.drop_last());
        assert((a + b).last() == b.last());
        assert(joined(a + b) =~= joined(a) + joined(b));
    }
}

proof fn lemma_wire_of_push(frames: Seq<FrameView>, last: FrameView)
    ensures
        frame::wire_of(frames.push(last)) == frame::wire_of(frames) + last.wire(),
    decreases frames.len(),
{
    if frames.len() == 0 {
        assert(frames.push(last).skip(1) =~= Seq::empty());
        reveal_with_fuel(frame::wire_of, 2);
        assert(frame::wire_of(frames.push(last)) =~= frame::wire_of(frames) + last.wire());
    } else {
        lemma_wire_of_push(frames.skip(1), last);
        assert(frames.push(last).skip(1) =~= frames.skip(1).push(last));
        assert(frame::wire_of(frames.push(last)) =~= frame::wire_of(frames) + last.wire());
    }
}

/// What a batch is written as is its frames on the wire, in order.
pub proof fn chunks_are_the_wire_form(batch: Seq<Frame>)
    ensures
        joined(batch_chunks(batch)) == frame::wire_of(frame_views(batch)),
    decreases batch.len(),
{
    if batch.len() == 0 {
        assert(frame_views(batch) =~= Seq::empty());
    } else {
        chunks_are_the_wire_form(batch.drop_last());
        let last = batch.last()@;
        lemma_joined_concat(batch_chunks(batch.drop_last()), frame_chunks(last));
        assert(frame_views(batch) =~= frame_views(batch.drop_last()).push(last));
        lemma_wire_of_push(frame_views(batch.drop_last()), last);
        reveal_with_fuel(joined, 3);
        if last.payload.len() == 0 {
            assert(seq![last.header()].drop_last() =~= Seq::empty());
            assert(joined(frame_chunks(last)) =~= last.wire());
        } else {
            let two = seq![last.header(), last.payload];
            assert(two.drop_last() =~= seq![last.header()]);
            assert(two.drop_last().drop_last() =~= Seq::empty());
            assert(joined(frame_chunks(last)) =~= last.wire());
        }
    }
}

/// A request hears what its frontend says: for a response that is known, `Stop`
/// stops the request, and `Kill` and `Reset` kill it. For one that is not known
/// they do nothing. A frame with a payload, and a frame of any other kind,
/// breaks the protocol.
pub proof fn control_reaches_the_request<H>(contexts: ClientContextsView<H>, frame: FrameView)
    ensures
        frame.payload.len() > 0 ==> contexts.control(frame) == Err::<ControlAction, ControlError>(
            ControlError::Payload,
        ),
        frame.payload.len() == 0 && contexts.contexts.contains_key(frame.registration_id) ==> {
            let count = !contexts.contexts[frame.registration_id].cancellation_recorded;
            &&& frame.kind == FrameKind::Stop ==> contexts.control(frame) == Ok::<
                ControlAction,
                ControlError,
            >(ControlAction::Stop { count })
            &&& frame.kind == FrameKind::Kill ==> contexts.control(frame) == Ok::<
                ControlAction,
                ControlError,
            >(ControlAction::Kill { count })
            &&& frame.kind == FrameKind::Reset ==> contexts.control(frame) == Ok::<
                ControlAction,
                ControlError,
            >(ControlAction::Kill { count })
        },
        frame.payload.len() == 0 && !contexts.contexts.contains_key(frame.registration_id) && (
        frame.kind == FrameKind::Stop || frame.kind == FrameKind::Kill || frame.kind
            == FrameKind::Reset) ==> contexts.control(frame) == Ok::<ControlAction, ControlError>(
            ControlAction::Ignore,
        ),
        frame.payload.len() == 0 && frame.kind != FrameKind::Stop && frame.kind != FrameKind::Kill
            && frame.kind != FrameKind::Reset ==> contexts.control(frame) == Err::<
            ControlAction,
            ControlError,
        >(ControlError::ForwardOnly { kind: frame.kind }),
{
}

/// Counting a cancellation notes it for that response, and changes nothing
/// else: the responses that are known, what their requests are told by, what
/// was counted of the others, and whether the bundle has failed.
pub proof fn counting_changes_nothing_else<H>(
    contexts: ClientContextsView<H>,
    id: u128,
    other: u128,
)
    ensures
        ({
            let after = contexts.counted(id);
            &&& after.healthy == contexts.healthy
            &&& after.contexts.contains_key(other) <==> contexts.contexts.contains_key(other)
            &&& contexts.contexts.contains_key(other) ==> after.contexts[other].handle
                == contexts.contexts[other].handle
            &&& contexts.contexts.contains_key(other) ==> after.contexts[other].cancellation_recorded
                == (other == id || contexts.contexts[other].cancellation_recorded)
        }),
        contexts.uncounted(id) <==> contexts.contexts.contains_key(id)
            && !contexts.contexts[id].cancellation_recorded,
{
}

/// A written batch brings exactly those responses to their end of which it
/// holds an `End` or an `Error`.
pub proof fn responses_end_with_their_last_frame(batch: Seq<Frame>, id: u128)
    ensures
        (exists|i: int|
            0 <= i < batch.len() && (#[trigger] batch[i]).registration_id == id && (batch[i].kind
                == FrameKind::End || batch[i].kind == FrameKind::Error)) <==> terminated_by(
            batch,
        ).contains(id),
{
    if terminated_by(batch).contains(id) {
        let i = choose|i: int|
            0 <= i < batch.len() && is_terminal((#[trigger] batch[i]).kind)
                && batch[i].registration_id == id;
        assert(batch[i].registration_id == id);
    }
}

/// Lanes are dealt to the connections in turn, so that no connection carries
/// two more than another. All of them share one connection for their priority
/// streams, which is there just where those are asked for.
pub proof fn lanes_are_dealt_in_turn(config: QuicResponseConfig, index: int)
    requires
        config.wf(),
        0 <= index < config.lanes,
    ensures
        lane_plan(config, index).index == index,
        index < config.connections ==> lane_plan(config, index).connection == index,
        index >= config.connections ==> lane_plan(config, index).connection == lane_plan(
            config,
            index - config.connections,
        ).connection,
        config.priority_prologue_stream ==> lane_plan(config, index).priority_connection == Some(
            config.connections,
        ),
        !config.priority_prologue_stream ==> lane_plan(config, index).priority_connection is None,
{
    let n = config.connections as int;
    if index < n {
        assert(index % n == index) by (nonlinear_arith)
            requires
                0 <= index < n,
        ;
    } else {
        assert(index % n == (index - n) % n) by (nonlinear_arith)
            requires
                0 < n <= index,
        ;
    }
    assert(0 <= index % n < n) by (nonlinear_arith)
        requires
            0 <= index,
            0 < n,
    ;
}

/// Two bundles lead to the same frontend just if address, frontend and
/// certificate are the same.
pub proof fn frontends_are_told_apart(a: ConnectionKey, b: ConnectionKey)
    ensures
        a.key() == b.key() <==> a.address@ == b.address@ && a.frontend_id@ == b.frontend_id@
            && a.certificate_sha256@ == b.certificate_sha256@,
{
    assert(a.key() =~= b.key() <==> a@ =~= b@);
}

/// Frames and buffers are seen in order and whole.
pub proof fn batches_are_seen_whole(batch: Seq<Frame>, chunks: Seq<Vec<u8>>, i: int)
    ensures
        frame_views(batch).len() == batch.len(),
        0 <= i < batch.len() ==> frame_views(batch)[i].kind == batch[i].kind && frame_views(
            batch,
        )[i].registration_id == batch[i].registration_id && frame_views(batch)[i].payload
            == batch[i].payload@,
        buffers(chunks).len() == chunks.len(),
        0 <= i < chunks.len() ==> buffers(chunks)[i] == chunks[i]@,
        joined(Seq::empty()).len() == 0,
        0 <= i < chunks.len() ==> joined(buffers(chunks).push(chunks[i]@)) == joined(
            buffers(chunks),
        ) + chunks[i]@,
{
    if 0 <= i < chunks.len() {
        assert(buffers(chunks).push(chunks[i]@).drop_last() =~= buffers(chunks));
    }
}

} // verus!
