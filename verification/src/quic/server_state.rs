//! The frontend's table of registered responses.

use crate::instances::{EndpointInstanceId, InstanceKey, InstanceTable};
use crate::keyed_table;
use crate::quic::deferred;
use crate::quic::deferred::{DeferredResponse, DeferredView};
use crate::quic::frame::{Frame, FrameKind, FrameView};
use crate::quic::response_slot;
use crate::quic::response_slot::{
    ActiveResponse, ActiveView, DrainOutcome, FrameOutcome, PendingResponse, PendingView,
    ServerFrameError, Slot,
};
use crate::quic::id_map::keys_of;
use crate::seqs;
use crate::text::text_from_utf8;
use std::collections::HashMap;
use std::collections::VecDeque;
use vstd::prelude::*;

verus! {

broadcast use vstd::std_specs::hash::group_hash_axioms;

/// How long a removed instance refuses new responses, in nanoseconds.
pub const TOMBSTONE_TTL: u64 = 5_000_000_000;

/// All that was known of a registration that is gone.
pub struct Removed<P, A> {
    pub pending: Option<PendingResponse<P>>,
    pub active: Option<ActiveResponse<A>>,
}

pub open spec fn pending_view<P>(pending: Option<PendingResponse<P>>) -> Option<PendingView<P>> {
    match pending {
        Some(pending) => Some(pending@),
        None => None,
    }
}

pub open spec fn active_view<A>(active: Option<ActiveResponse<A>>) -> Option<ActiveView<A>> {
    match active {
        Some(active) => Some(active@),
        None => None,
    }
}

impl<P, A> View for Removed<P, A> {
    type V = Slot<P, A>;

    open spec fn view(&self) -> Slot<P, A> {
        Slot { pending: pending_view(self.pending), active: active_view(self.active) }
    }
}

/// What the caller is to do about a frame.
pub enum FrameAction<P, A> {
    /// Send a `Reset` back.
    Reset,
    /// Hand the response over, then make it active.
    Open { pending: PendingResponse<P> },
    /// Report `message` as the response's terminal error.
    Fail { pending: PendingResponse<P>, message: String, active: Option<ActiveResponse<A>> },
    /// Deliver `first`, if any, and then what was held back.
    BeginDrain { first: Option<Vec<u8>>, prologue_received_at: u64 },
    /// Nothing.
    Deferred,
    /// Deliver `payload`.
    Deliver { payload: Vec<u8> },
    /// Drop the response and send a `Reset` back.
    Overflow { removed: Removed<P, A> },
    /// Drop the response.
    Close { removed: Removed<P, A> },
}

pub open spec fn bytes_view(bytes: Option<Vec<u8>>) -> Option<Seq<u8>> {
    match bytes {
        Some(bytes) => Some(bytes@),
        None => None,
    }
}

/// The outcome that a result of processing a frame stands for.
pub open spec fn outcome_of<P, A>(r: Result<FrameAction<P, A>, ServerFrameError>) -> FrameOutcome<
    P,
    A,
> {
    match r {
        Err(error) => FrameOutcome::Invalid { error },
        Ok(FrameAction::Reset) => FrameOutcome::Reset,
        Ok(FrameAction::Open { pending }) => FrameOutcome::Open { pending: pending@ },
        Ok(FrameAction::Fail { pending, message, active }) => FrameOutcome::Fail {
            pending: pending@,
            message: message@,
            active: active_view(active),
        },
        Ok(FrameAction::BeginDrain { first, prologue_received_at }) => FrameOutcome::BeginDrain {
            first: bytes_view(first),
            prologue_received_at,
        },
        Ok(FrameAction::Deferred) => FrameOutcome::Deferred,
        Ok(FrameAction::Deliver { payload }) => FrameOutcome::Deliver { payload: payload@ },
        Ok(FrameAction::Overflow { removed }) => FrameOutcome::Overflow { removed: removed@ },
        Ok(FrameAction::Close { removed }) => FrameOutcome::Close { removed: removed@ },
    }
}

/// What one round of delivering held-back payloads asks for.
pub enum DrainAction<P, A> {
    Gone,
    Deliver { payloads: VecDeque<Vec<u8>> },
    Ready,
    Close { removed: Removed<P, A> },
}

pub open spec fn drain_outcome_of<P, A>(r: DrainAction<P, A>) -> DrainOutcome<P, A> {
    match r {
        DrainAction::Gone => DrainOutcome::Gone,
        DrainAction::Deliver { payloads } => DrainOutcome::Deliver {
            payloads: deferred::contents(payloads@),
        },
        DrainAction::Ready => DrainOutcome::Ready,
        DrainAction::Close { removed } => DrainOutcome::Close { removed: removed@ },
    }
}

fn prologue_slot<P, A>(slot: Removed<P, A>, frame: Frame, bundle: u128) -> (r: (
    Removed<P, A>,
    Result<FrameAction<P, A>, ServerFrameError>,
))
    ensures
        (r.0@, outcome_of(r.1)) == response_slot::prologue_step(slot@, frame@, bundle),
{
    if frame.payload.len() != 0 {
        return (slot, Err(ServerFrameError::ProloguePayload));
    }
    match slot.pending {
        None => (Removed { pending: None, active: slot.active }, Ok(FrameAction::Reset)),
        Some(pending) => {
            let rest = Removed { pending: None, active: slot.active };
            match pending.bundle_id {
                Some(from) if from != bundle => (
                    rest,
                    Err(
                        ServerFrameError::BundleChanged {
                            registration_id: frame.registration_id,
                            from,
                            to: bundle,
                        },
                    ),
                ),
                _ => (rest, Ok(FrameAction::Open { pending })),
            }
        },
    }
}

fn error_slot<P, A>(slot: Removed<P, A>, frame: Frame, bundle: u128) -> (r: (
    Removed<P, A>,
    Result<FrameAction<P, A>, ServerFrameError>,
))
    ensures
        (r.0@, outcome_of(r.1)) == response_slot::error_step(slot@, frame@, bundle),
{
    let registration_id = frame.registration_id;
    let message = match text_from_utf8(frame.payload) {
        Some(message) => message,
        None => {
            return (slot, Err(ServerFrameError::ErrorNotUtf8));
        },
    };
    match slot.pending {
        None => (Removed { pending: None, active: slot.active }, Ok(FrameAction::Reset)),
        Some(pending) => match pending.bundle_id {
            Some(from) if from != bundle => (
                Removed { pending: None, active: slot.active },
                Err(ServerFrameError::BundleChanged { registration_id, from, to: bundle }),
            ),
            _ => (
                Removed { pending: None, active: None },
                Ok(FrameAction::Fail { pending, message, active: slot.active }),
            ),
        },
    }
}

fn priority_slot<P, A>(slot: Removed<P, A>, frame: Frame, bundle: u128) -> (r: (
    Removed<P, A>,
    Result<FrameAction<P, A>, ServerFrameError>,
))
    requires
        frame.kind == FrameKind::FirstData || frame.kind == FrameKind::PriorityEnd,
    ensures
        (r.0@, outcome_of(r.1)) == response_slot::priority_step(slot@, frame@, bundle),
{
    match slot.active {
        None => (Removed { pending: slot.pending, active: None }, Ok(FrameAction::Reset)),
        Some(active) => {
            if active.bundle_id != bundle {
                let error = ServerFrameError::BundleChanged {
                    registration_id: frame.registration_id,
                    from: active.bundle_id,
                    to: bundle,
                };
                (Removed { pending: slot.pending, active: Some(active) }, Err(error))
            } else if active.priority_ready || active.priority_draining {
                (
                    Removed { pending: slot.pending, active: Some(active) },
                    Ok(FrameAction::Reset),
                )
            } else {
                let mut active = active;
                active.priority_draining = true;
                let prologue_received_at = active.prologue_received_at;
                let first = match frame.kind {
                    FrameKind::FirstData => Some(frame.payload),
                    _ => None,
                };
                (
                    Removed { pending: slot.pending, active: Some(active) },
                    Ok(FrameAction::BeginDrain { first, prologue_received_at }),
                )
            }
        },
    }
}

fn data_slot<P, A>(slot: Removed<P, A>, frame: Frame, bundle: u128, priority: bool) -> (r: (
    Removed<P, A>,
    Result<FrameAction<P, A>, ServerFrameError>,
))
    ensures
        (r.0@, outcome_of(r.1)) == response_slot::data_step(slot@, frame@, bundle, priority),
{
    let registration_id = frame.registration_id;
    match slot.active {
        Some(active) => {
            let mut active = active;
            if active.bundle_id != bundle {
                let error = ServerFrameError::BundleChanged {
                    registration_id,
                    from: active.bundle_id,
                    to: bundle,
                };
                (Removed { pending: slot.pending, active: Some(active) }, Err(error))
            } else if active.priority_ready {
                (
                    Removed { pending: slot.pending, active: Some(active) },
                    Ok(FrameAction::Deliver { payload: frame.payload }),
                )
            } else {
                let pushed = active.deferred.push(frame.payload);
                let slot = Removed { pending: slot.pending, active: Some(active) };
                match pushed {
                    Ok(()) => (slot, Ok(FrameAction::Deferred)),
                    Err(_) => (
                        Removed { pending: None, active: None },
                        Ok(FrameAction::Overflow { removed: slot }),
                    ),
                }
            }
        },
        None => match slot.pending {
            Some(pending) if priority => {
                let mut pending = pending;
                match pending.bundle_id {
                    Some(from) if from != bundle => (
                        Removed { pending: Some(pending), active: None },
                        Err(ServerFrameError::BundleChanged { registration_id, from, to: bundle }),
                    ),
                    _ => {
                        pending.bundle_id = Some(bundle);
                        let pushed = pending.deferred.push(frame.payload);
                        let slot = Removed { pending: Some(pending), active: None };
                        match pushed {
                            Ok(()) => (slot, Ok(FrameAction::Deferred)),
                            Err(_) => (
                                Removed { pending: None, active: None },
                                Ok(FrameAction::Overflow { removed: slot }),
                            ),
                        }
                    },
                }
            },
            pending => (Removed { pending, active: None }, Ok(FrameAction::Reset)),
        },
    }
}

fn end_slot<P, A>(slot: Removed<P, A>, frame: Frame, bundle: u128, priority: bool) -> (r: (
    Removed<P, A>,
    Result<FrameAction<P, A>, ServerFrameError>,
))
    ensures
        (r.0@, outcome_of(r.1)) == response_slot::end_step(slot@, frame@, bundle, priority),
{
    if frame.payload.len() != 0 {
        return (slot, Err(ServerFrameError::EndPayload));
    }
    let registration_id = frame.registration_id;
    match slot.active {
        Some(active) => {
            let mut active = active;
            if active.bundle_id != bundle {
                let error = ServerFrameError::BundleChanged {
                    registration_id,
                    from: active.bundle_id,
                    to: bundle,
                };
                (Removed { pending: slot.pending, active: Some(active) }, Err(error))
            } else if active.priority_ready {
                (
                    Removed { pending: None, active: None },
                    Ok(
                        FrameAction::Close {
                            removed: Removed { pending: slot.pending, active: Some(active) },
                        },
                    ),
                )
            } else {
                active.deferred.end = true;
                (
                    Removed { pending: slot.pending, active: Some(active) },
                    Ok(FrameAction::Deferred),
                )
            }
        },
        None => {
            if !priority {
                return (
                    Removed { pending: None, active: None },
                    Ok(
                        FrameAction::Close {
                            removed: Removed { pending: slot.pending, active: None },
                        },
                    ),
                );
            }
            match slot.pending {
                None => (Removed { pending: None, active: None }, Ok(FrameAction::Reset)),
                Some(pending) => {
                    let mut pending = pending;
                    match pending.bundle_id {
                        Some(from) if from != bundle => (
                            Removed { pending: Some(pending), active: None },
                            Err(
                                ServerFrameError::BundleChanged {
                                    registration_id,
                                    from,
                                    to: bundle,
                                },
                            ),
                        ),
                        _ => {
                            pending.bundle_id = Some(bundle);
                            pending.deferred.end = true;
                            (
                                Removed { pending: Some(pending), active: None },
                                Ok(FrameAction::Deferred),
                            )
                        },
                    }
                },
            }
        },
    }
}

/// Applies one frame to all that is known of its registration.
fn step_slot<P, A>(slot: Removed<P, A>, frame: Frame, bundle: u128, priority: bool) -> (r: (
    Removed<P, A>,
    Result<FrameAction<P, A>, ServerFrameError>,
))
    ensures
        (r.0@, outcome_of(r.1)) == response_slot::slot_step(slot@, frame@, bundle, priority),
{
    match frame.kind {
        FrameKind::Prologue => prologue_slot(slot, frame, bundle),
        FrameKind::Error => error_slot(slot, frame, bundle),
        FrameKind::FirstData | FrameKind::PriorityEnd => priority_slot(slot, frame, bundle),
        FrameKind::Data => data_slot(slot, frame, bundle, priority),
        FrameKind::End => end_slot(slot, frame, bundle, priority),
        FrameKind::Stop | FrameKind::Kill | FrameKind::Reset | FrameKind::Bundle => (
            slot,
            Err(ServerFrameError::ReverseOnly { kind: frame.kind }),
        ),
    }
}

/// The registered responses as mathematical maps.
#[verifier::ext_equal]
pub struct ServerModel<P, A> {
    pub pending: Map<u128, PendingView<P>>,
    pub active: Map<u128, ActiveView<A>>,
    /// The instance that each registration was last associated with.
    pub registration_instance: Map<u128, InstanceKey>,
    /// The registrations associated with each instance, oldest first.
    pub instance_registrations: Map<InstanceKey, Seq<u128>>,
    /// When each removed instance was removed.
    pub removed_instances: Map<InstanceKey, u64>,
    /// The bundle that each connection belongs to.
    pub connection_bundles: Map<u64, u128>,
}

/// Tells the registrations that stay in the list of `instance` when `ids` go.
pub open spec fn stays(
    ids: Set<u128>,
    owner: Map<u128, InstanceKey>,
    instance: InstanceKey,
) -> spec_fn(u128) -> bool {
    |id: u128| !(ids.contains(id) && owner.contains_key(id) && owner[id] == instance)
}

/// `registrations` without those in `ids` that belong to `instance`.
pub open spec fn kept_registrations(
    registrations: Seq<u128>,
    ids: Set<u128>,
    owner: Map<u128, InstanceKey>,
    instance: InstanceKey,
) -> Seq<u128> {
    registrations.filter(stays(ids, owner, instance))
}

impl<P, A> ServerModel<P, A> {
    pub open spec fn empty() -> Self {
        ServerModel {
            pending: Map::empty(),
            active: Map::empty(),
            registration_instance: Map::empty(),
            instance_registrations: Map::empty(),
            removed_instances: Map::empty(),
            connection_bundles: Map::empty(),
        }
    }

    /// Every association is listed under its instance, and no list is empty.
    pub open spec fn wf(self) -> bool {
        &&& forall|id: u128| #[trigger]
            self.registration_instance.contains_key(id) ==> {
                let instance = self.registration_instance[id];
                &&& self.instance_registrations.contains_key(instance)
                &&& self.instance_registrations[instance].contains(id)
            }
        &&& forall|instance: InstanceKey| #[trigger]
            self.instance_registrations.contains_key(instance)
                ==> self.instance_registrations[instance].len() != 0
    }

    pub open spec fn slot(self, id: u128) -> Slot<P, A> {
        Slot { pending: self.pending.get(id), active: self.active.get(id) }
    }

    pub open spec fn with_slot(self, id: u128, slot: Slot<P, A>) -> Self {
        ServerModel {
            pending: match slot.pending {
                Some(pending) => self.pending.insert(id, pending),
                None => self.pending.remove(id),
            },
            active: match slot.active {
                Some(active) => self.active.insert(id, active),
                None => self.active.remove(id),
            },
            ..self
        }
    }

    /// The registrations in `ids` are gone, also from the lists of the
    /// instances that they belonged to.
    pub open spec fn without(self, ids: Set<u128>) -> Self {
        let lists = Map::new(
            |instance: InstanceKey|
                self.instance_registrations.contains_key(instance) && kept_registrations(
                    self.instance_registrations[instance],
                    ids,
                    self.registration_instance,
                    instance,
                ).len() != 0,
            |instance: InstanceKey|
                kept_registrations(
                    self.instance_registrations[instance],
                    ids,
                    self.registration_instance,
                    instance,
                ),
        );
        ServerModel {
            pending: self.pending.remove_keys(ids),
            active: self.active.remove_keys(ids),
            registration_instance: self.registration_instance.remove_keys(ids),
            instance_registrations: lists,
            ..self
        }
    }

    /// How a frame that came over `bundle` changes the table.
    pub open spec fn after_frame(self, frame: FrameView, bundle: u128, priority: bool) -> Self {
        let id = frame.registration_id;
        let (slot, outcome) = response_slot::slot_step(self.slot(id), frame, bundle, priority);
        if outcome.removes() {
            self.without(set![id])
        } else {
            self.with_slot(id, slot)
        }
    }

    /// How one round of delivering held-back payloads changes the table.
    pub open spec fn after_drain(self, id: u128) -> Self {
        let (slot, outcome) = response_slot::drain_step(self.slot(id));
        if outcome is Close {
            self.without(set![id])
        } else {
            self.with_slot(id, slot)
        }
    }

    /// The registrations that came over `bundle`.
    pub open spec fn of_bundle(self, bundle: u128) -> Set<u128> {
        Set::new(
            |id: u128|
                (self.pending.contains_key(id) && self.pending[id].bundle_id == Some(bundle)) || (
                self.active.contains_key(id) && self.active[id].bundle_id == bundle),
        )
    }

    pub open spec fn registered(self, id: u128, handle: P, now: u64) -> Self {
        ServerModel {
            pending: self.pending.insert(
                id,
                PendingView {
                    handle,
                    registered_at: now,
                    bundle_id: None,
                    deferred: DeferredView::empty(),
                },
            ),
            ..self
        }
    }

    pub open spec fn activated(self, id: u128, active: ActiveView<A>) -> Self {
        ServerModel { active: self.active.insert(id, active), ..self }
    }

    /// The registrations associated with `instance`, oldest first.
    pub open spec fn registrations_of(self, instance: InstanceKey) -> Seq<u128> {
        if self.instance_registrations.contains_key(instance) {
            self.instance_registrations[instance]
        } else {
            Seq::empty()
        }
    }

    pub open spec fn associated(self, id: u128, instance: InstanceKey) -> Self {
        ServerModel {
            registration_instance: self.registration_instance.insert(id, instance),
            instance_registrations: self.instance_registrations.insert(
                instance,
                self.registrations_of(instance).push(id),
            ),
            ..self
        }
    }

    /// Whether `instance` was removed so recently that it takes no responses.
    pub open spec fn is_tombstoned(self, instance: InstanceKey, now: u64) -> bool {
        self.removed_instances.contains_key(instance) && keyed_table::is_fresh(
            self.removed_instances[instance],
            now,
            TOMBSTONE_TTL,
        )
    }

    /// `instance` is marked as removed at `now` and has no list any more.
    pub open spec fn tombstoned(self, instance: InstanceKey, now: u64) -> Self {
        ServerModel {
            removed_instances: self.pruned(now).removed_instances.insert(instance, now),
            instance_registrations: self.instance_registrations.remove(instance),
            ..self
        }
    }

    /// `instance` is removed at `now`, with every response it was to serve.
    pub open spec fn cancelled(self, instance: InstanceKey, now: u64) -> Self {
        self.tombstoned(instance, now).without(self.registrations_of(instance).to_set())
    }

    pub open spec fn without_bundle(self, bundle: u128) -> Self {
        ServerModel {
            connection_bundles: self.connection_bundles.restrict(
                Set::new(
                    |c: u64|
                        self.connection_bundles.contains_key(c) && self.connection_bundles[c]
                            != bundle,
                ),
            ),
            ..self
        }
    }

    /// The registrations that a failure of `connection` takes down.
    pub open spec fn doomed(self, connection: u64) -> Set<u128> {
        match self.connection_bundles.get(connection) {
            Some(bundle) => self.of_bundle(bundle),
            None => Set::empty(),
        }
    }

    /// `connection` has failed: its bundle is gone, with all its responses.
    pub open spec fn failed(self, connection: u64) -> Self {
        match self.connection_bundles.get(connection) {
            Some(bundle) => self.without_bundle(bundle).without(self.of_bundle(bundle)),
            None => self,
        }
    }

    /// The instances that are still remembered as removed at `now`.
    pub open spec fn pruned(self, now: u64) -> Self {
        ServerModel {
            removed_instances: keyed_table::fresh(self.removed_instances, now, TOMBSTONE_TTL),
            ..self
        }
    }
}

/// Removing more registrations later is removing them all at once.
pub proof fn removals_combine<P, A>(m: ServerModel<P, A>, ids: Set<u128>, more: Set<u128>)
    ensures
        m.without(ids).without(more) == m.without(ids.union(more)),
{
    let first = m.without(ids);
    let second = first.without(more);
    let both = m.without(ids.union(more));
    let owner = m.registration_instance;
    assert forall|instance: InstanceKey| #[trigger]
        m.instance_registrations.contains_key(instance) implies kept_registrations(
        kept_registrations(m.instance_registrations[instance], ids, owner, instance),
        more,
        first.registration_instance,
        instance,
    ) == kept_registrations(
        m.instance_registrations[instance],
        ids.union(more),
        owner,
        instance,
    ) by {
        let list = m.instance_registrations[instance];
        let p = stays(ids, owner, instance);
        let q = stays(more, first.registration_instance, instance);
        seqs::lemma_filter_twice(list, p, q);
        let r = stays(ids.union(more), owner, instance);
        seqs::lemma_filter_same(list, |id: u128| p(id) && q(id), r);
    }
    assert forall|instance: InstanceKey|
        #[trigger] m.instance_registrations.contains_key(instance) && !first.instance_registrations.contains_key(
            instance,
        ) implies kept_registrations(
        m.instance_registrations[instance],
        ids.union(more),
        owner,
        instance,
    ).len() == 0 by {
        let list = m.instance_registrations[instance];
        let k1 = kept_registrations(list, ids, owner, instance);
        assert(k1.len() == 0);
        reveal(Seq::filter);
        assert(kept_registrations(k1, more, first.registration_instance, instance).len() == 0);
        assert(kept_registrations(
            k1,
            more,
            first.registration_instance,
            instance,
        ) == kept_registrations(list, ids.union(more), owner, instance));
    }
    assert(second.instance_registrations =~= both.instance_registrations);
    assert(second.pending =~= both.pending);
    assert(second.active =~= both.active);
    assert(second.registration_instance =~= both.registration_instance);
}

/// Removing registrations keeps the table well formed.
pub proof fn removal_keeps_table<P, A>(m: ServerModel<P, A>, ids: Set<u128>)
    requires
        m.wf(),
    ensures
        m.without(ids).wf(),
        m.without(Set::empty()) == m,
{
    let after = m.without(ids);
    assert forall|id: u128| #[trigger] after.registration_instance.contains_key(id) implies {
        let instance = after.registration_instance[id];
        &&& after.instance_registrations.contains_key(instance)
        &&& after.instance_registrations[instance].contains(id)
    } by {
        let instance = m.registration_instance[id];
        let list = m.instance_registrations[instance];
        let owner = m.registration_instance;
        let p = stays(ids, owner, instance);
        assert(m.registration_instance.contains_key(id));
        assert(!ids.contains(id));
        seqs::lemma_filter_member(list, p, id);
        let kept = kept_registrations(list, ids, owner, instance);
        assert(kept.contains(id));
        assert(kept.len() != 0);
    }
    lemma_nothing_removed(m);
}

proof fn lemma_nothing_removed<P, A>(m: ServerModel<P, A>)
    requires
        forall|instance: InstanceKey| #[trigger]
            m.instance_registrations.contains_key(instance)
                ==> m.instance_registrations[instance].len() != 0,
    ensures
        m.without(Set::empty()) == m,
{
    let none = m.without(Set::empty());
    assert forall|instance: InstanceKey| #[trigger]
        m.instance_registrations.contains_key(instance) implies kept_registrations(
        m.instance_registrations[instance],
        Set::empty(),
        m.registration_instance,
        instance,
    ) == m.instance_registrations[instance] by {
        let p = stays(Set::empty(), m.registration_instance, instance);
        seqs::lemma_filter_all(m.instance_registrations[instance], p);
    }
    assert(none.instance_registrations =~= m.instance_registrations);
    assert(none.pending =~= m.pending);
    assert(none.active =~= m.active);
    assert(none.registration_instance =~= m.registration_instance);
}

/// What is known of a registration does not matter to its removal.
pub proof fn removal_ignores_slot<P, A>(m: ServerModel<P, A>, id: u128, slot: Slot<P, A>)
    ensures
        m.with_slot(id, slot).without(set![id]) == m.without(set![id]),
{
    let changed = m.with_slot(id, slot).without(set![id]);
    let plain = m.without(set![id]);
    assert(changed.pending =~= plain.pending);
    assert(changed.active =~= plain.active);
    assert(changed.instance_registrations =~= plain.instance_registrations);
    assert(changed =~= plain);
}

/// Associating a registration with an instance keeps the table sound.
pub proof fn association_keeps_table<P, A>(
    m: ServerModel<P, A>,
    id: u128,
    instance: InstanceKey,
)
    requires
        m.wf(),
    ensures
        m.associated(id, instance).wf(),
{
    let after = m.associated(id, instance);
    let list = m.registrations_of(instance);
    assert(list.push(id)[list.len() as int] == id);
    assert forall|other: u128| #[trigger] after.registration_instance.contains_key(other) implies {
        let owner = after.registration_instance[other];
        &&& after.instance_registrations.contains_key(owner)
        &&& after.instance_registrations[owner].contains(other)
    } by {
        if other != id {
            assert(m.registration_instance.contains_key(other));
            let owner = m.registration_instance[other];
            let k = choose|k: int|
                0 <= k < m.instance_registrations[owner].len()
                    && m.instance_registrations[owner][k] == other;
            if owner == instance {
                assert(list.push(id)[k] == other);
            }
        }
    }
}

/// Removing an instance keeps the table sound.
pub proof fn cancellation_keeps_table<P, A>(
    m: ServerModel<P, A>,
    instance: InstanceKey,
    now: u64,
)
    requires
        m.wf(),
    ensures
        m.cancelled(instance, now).wf(),
{
    let ids = m.registrations_of(instance).to_set();
    let start = m.tombstoned(instance, now);
    let after = m.cancelled(instance, now);
    assert forall|id: u128| #[trigger] after.registration_instance.contains_key(id) implies {
        let owner = after.registration_instance[id];
        &&& after.instance_registrations.contains_key(owner)
        &&& after.instance_registrations[owner].contains(id)
    } by {
        assert(m.registration_instance.contains_key(id));
        let owner = m.registration_instance[id];
        assert(m.instance_registrations[owner].contains(id));
        assert(owner != instance);
        let list = start.instance_registrations[owner];
        seqs::lemma_filter_member(list, stays(ids, start.registration_instance, owner), id);
    }
}

/// A frame changes nothing of any other response.
pub proof fn frame_leaves_others<P, A>(
    m: ServerModel<P, A>,
    frame: FrameView,
    bundle: u128,
    priority: bool,
    other: u128,
)
    requires
        other != frame.registration_id,
    ensures
        m.after_frame(frame, bundle, priority).slot(other) == m.slot(other),
{
}

/// A failed connection takes down the responses that came over its bundle and
/// no others, and no connection of that bundle is left.
pub proof fn failure_takes_down_its_bundle<P, A>(m: ServerModel<P, A>, connection: u64, id: u128)
    requires
        m.connection_bundles.contains_key(connection),
    ensures
        ({
            let bundle = m.connection_bundles[connection];
            let after = m.failed(connection);
            &&& m.of_bundle(bundle).contains(id) ==> after.slot(id) == Slot::<P, A>::empty()
                && !after.registration_instance.contains_key(id)
            &&& !m.of_bundle(bundle).contains(id) ==> after.slot(id) == m.slot(id)
            &&& forall|c: u64| #[trigger]
                after.connection_bundles.contains_key(c) <==> m.connection_bundles.contains_key(c)
                    && m.connection_bundles[c] != bundle
        }),
{
}

/// An instance that was removed takes no responses until its mark has aged,
/// and none of the responses that it was to serve is left.
pub proof fn removed_instance_is_refused<P, A>(
    m: ServerModel<P, A>,
    instance: InstanceKey,
    now: u64,
    later: u64,
    id: u128,
)
    requires
        now <= later,
    ensures
        m.cancelled(instance, now).is_tombstoned(instance, later) <==> later - now < TOMBSTONE_TTL,
        m.cancelled(instance, now).registrations_of(instance).len() == 0,
        m.registrations_of(instance).contains(id) ==> m.cancelled(instance, now).slot(id)
            == Slot::<P, A>::empty(),
{
}

/// Every response held back keeps within the bounds.
pub open spec fn within_bounds<P, A>(slot: Slot<P, A>) -> bool {
    &&& slot.pending is Some ==> slot.pending->0.deferred.wf()
    &&& slot.active is Some ==> slot.active->0.deferred.wf()
}

/// Neither a frame nor a delivery makes a response hold back too much.
pub proof fn bounds_are_kept<P, A>(
    slot: Slot<P, A>,
    frame: FrameView,
    bundle: u128,
    priority: bool,
)
    requires
        within_bounds(slot),
    ensures
        within_bounds(response_slot::slot_step(slot, frame, bundle, priority).0),
        within_bounds(response_slot::drain_step(slot).0),
{
    if slot.pending is Some && slot.pending->0.deferred.admits(frame.payload.len()) {
        deferred::push_keeps_bounds(slot.pending->0.deferred, frame.payload);
    }
    if slot.active is Some && slot.active->0.deferred.admits(frame.payload.len()) {
        deferred::push_keeps_bounds(slot.active->0.deferred, frame.payload);
    }
}

/// Whether every response of a table keeps within the bounds.
pub open spec fn all_within_bounds<P, A>(m: ServerModel<P, A>) -> bool {
    forall|id: u128| within_bounds(#[trigger] m.slot(id))
}

/// Whatever is done to a table, no response of it holds back too much.
pub proof fn table_keeps_bounds<P, A>(
    m: ServerModel<P, A>,
    id: u128,
    frame: FrameView,
    bundle: u128,
    priority: bool,
    handle: P,
    active: ActiveView<A>,
    now: u64,
    ids: Set<u128>,
)
    requires
        all_within_bounds(m),
        active.deferred.wf(),
    ensures
        all_within_bounds(ServerModel::<P, A>::empty()),
        all_within_bounds(m.registered(id, handle, now)),
        all_within_bounds(m.activated(id, active)),
        all_within_bounds(m.after_frame(frame, bundle, priority)),
        all_within_bounds(m.after_drain(id)),
        all_within_bounds(m.without(ids)),
{
    let framed = m.after_frame(frame, bundle, priority);
    let drained = m.after_drain(id);
    let registered = m.registered(id, handle, now);
    assert forall|other: u128| within_bounds(#[trigger] framed.slot(other)) by {
        let old_slot = m.slot(other);
        assert(within_bounds(m.slot(frame.registration_id)));
        bounds_are_kept(m.slot(frame.registration_id), frame, bundle, priority);
        if other != frame.registration_id {
            frame_leaves_others(m, frame, bundle, priority, other);
        }
    }
    assert forall|other: u128| within_bounds(#[trigger] drained.slot(other)) by {
        let old_slot = m.slot(other);
        assert(within_bounds(m.slot(id)));
        bounds_are_kept(m.slot(id), frame, bundle, priority);
    }
    assert forall|other: u128| within_bounds(#[trigger] registered.slot(other)) by {
        assert(within_bounds(m.slot(other)));
    }
    assert forall|other: u128| within_bounds(#[trigger] m.activated(id, active).slot(other)) by {
        assert(within_bounds(m.slot(other)));
    }
    assert forall|other: u128| within_bounds(#[trigger] m.without(ids).slot(other)) by {
        assert(within_bounds(m.slot(other)));
    }
}

/// The registered responses of a frontend.
///
/// `P` and `A` are what the caller keeps with a pending and an active response.
#[verifier::reject_recursive_types(P)]
#[verifier::reject_recursive_types(A)]
pub struct ServerState<P, A> {
    pending: HashMap<u128, PendingResponse<P>>,
    active: HashMap<u128, ActiveResponse<A>>,
    registration_instance: HashMap<u128, EndpointInstanceId>,
    instance_registrations: InstanceTable<Vec<u128>>,
    removed_instances: InstanceTable<u64>,
    connection_bundles: HashMap<u64, u128>,
}

impl<P, A> View for ServerState<P, A> {
    type V = ServerModel<P, A>;

    closed spec fn view(&self) -> ServerModel<P, A> {
        ServerModel {
            pending: self.pending@.map_values(|pending: PendingResponse<P>| pending@),
            active: self.active@.map_values(|active: ActiveResponse<A>| active@),
            registration_instance: self.registration_instance@.map_values(
                |instance: EndpointInstanceId| instance@,
            ),
            instance_registrations: self.instance_registrations@.map_values(
                |registrations: Vec<u128>| registrations@,
            ),
            removed_instances: self.removed_instances@,
            connection_bundles: self.connection_bundles@,
        }
    }
}

/// The ids of removed registrations.
pub open spec fn ids_in<P, A>(removed: Seq<(u128, Removed<P, A>)>) -> Seq<u128> {
    removed.map_values(|entry: (u128, Removed<P, A>)| entry.0)
}

/// `ids` without `id`.
fn without_id(ids: Vec<u128>, id: u128) -> (r: Vec<u128>)
    ensures
        r@ == ids@.filter(|other: u128| other != id),
{
    let mut kept: Vec<u128> = Vec::new();
    let mut i: usize = 0;
    let ghost keep = |other: u128| other != id;
    proof {
        reveal(Seq::filter);
        assert(ids@.take(0) =~= Seq::empty());
    }
    while i < ids.len()
        invariant
            i <= ids@.len(),
            keep == (|other: u128| other != id),
            kept@ == ids@.take(i as int).filter(keep),
        decreases ids@.len() - i,
    {
        proof {
            reveal(Seq::filter);
            assert(ids@.take(i + 1).drop_last() =~= ids@.take(i as int));
        }
        if ids[i] != id {
            kept.push(ids[i]);
        }
        i += 1;
    }
    assert(ids@.take(ids@.len() as int) =~= ids@);
    kept
}

impl<P, A> ServerState<P, A> {
    /// The tables are sound and the lists agree with the associations.
    pub closed spec fn wf(&self) -> bool {
        &&& self.tables_wf()
        &&& self@.wf()
    }

    spec fn tables_wf(&self) -> bool {
        &&& self.instance_registrations.wf()
        &&& self.removed_instances.wf()
        &&& forall|instance: InstanceKey| #[trigger]
            self.instance_registrations@.contains_key(instance)
                ==> self.instance_registrations@[instance]@.len() != 0
    }

    /// Every association is listed under its instance, and no instance is listed
    /// without registrations.
    pub proof fn table_is_sound(&self)
        requires
            self.wf(),
        ensures
            self@.wf(),
    {
    }

    pub fn new() -> (r: Self)
        ensures
            r.wf(),
            r@ == ServerModel::<P, A>::empty(),
    {
        let r = ServerState {
            pending: HashMap::new(),
            active: HashMap::new(),
            registration_instance: HashMap::new(),
            instance_registrations: InstanceTable::new(),
            removed_instances: InstanceTable::new(),
            connection_bundles: HashMap::new(),
        };
        proof {
            assert(r@.pending =~= Map::empty());
            assert(r@.active =~= Map::empty());
            assert(r@.registration_instance =~= Map::empty());
            assert(r@.instance_registrations =~= Map::empty());
            assert(r@.connection_bundles =~= Map::empty());
        }
        r
    }

    fn take_slot(&mut self, id: u128) -> (r: Removed<P, A>)
        requires
            old(self).tables_wf(),
        ensures
            final(self).tables_wf(),
            r@ == old(self)@.slot(id),
            final(self)@ == old(self)@.with_slot(id, Slot::empty()),
    {
        let pending = self.pending.remove(&id);
        let active = self.active.remove(&id);
        proof {
            assert(self@.pending =~= old(self)@.pending.remove(id));
            assert(self@.active =~= old(self)@.active.remove(id));
        }
        Removed { pending, active }
    }

    fn put_slot(&mut self, id: u128, slot: Removed<P, A>)
        requires
            old(self).tables_wf(),
        ensures
            final(self).tables_wf(),
            final(self)@ == old(self)@.with_slot(id, slot@),
    {
        match slot.pending {
            Some(pending) => {
                self.pending.insert(id, pending);
                assert(self@.pending =~= old(self)@.pending.insert(id, pending@));
            },
            None => {
                self.pending.remove(&id);
                assert(self@.pending =~= old(self)@.pending.remove(id));
            },
        }
        match slot.active {
            Some(active) => {
                self.active.insert(id, active);
                assert(self@.active =~= old(self)@.active.insert(id, active@));
            },
            None => {
                self.active.remove(&id);
                assert(self@.active =~= old(self)@.active.remove(id));
            },
        }
    }

    /// Forgets `id` altogether.
    fn drop_registration(&mut self, id: u128) -> (r: Removed<P, A>)
        requires
            old(self).tables_wf(),
        ensures
            final(self).tables_wf(),
            r@ == old(self)@.slot(id),
            final(self)@ == old(self)@.without(set![id]),
    {
        let removed = self.take_slot(id);
        let ghost mid = *self;
        let owner = self.registration_instance.remove(&id);
        match owner {
            Some(instance) => {
                match self.instance_registrations.remove(&instance) {
                    Some(registrations) => {
                        let kept = without_id(registrations, id);
                        proof {
                            seqs::lemma_filter_same(
                                registrations@,
                                |other: u128| other != id,
                                stays(set![id], old(self)@.registration_instance, instance@),
                            );
                        }
                        if kept.len() != 0 {
                            self.instance_registrations.insert(instance, kept);
                        }
                    },
                    None => {},
                }
            },
            None => {},
        }
        proof {
            let before = old(self)@;
            let after = before.without(set![id]);
            assert forall|instance: InstanceKey| #[trigger]
                before.instance_registrations.contains_key(instance) && !(
                before.registration_instance.contains_key(id) && before.registration_instance[id]
                    == instance) implies kept_registrations(
                before.instance_registrations[instance],
                set![id],
                before.registration_instance,
                instance,
            ) == before.instance_registrations[instance] by {
                seqs::lemma_filter_all(
                    before.instance_registrations[instance],
                    stays(set![id], before.registration_instance, instance),
                );
            }
            assert(self@.pending =~= after.pending);
            assert(self@.active =~= after.active);
            assert(self@.registration_instance =~= after.registration_instance);
            let lists = self.instance_registrations@;
            assert forall|instance: InstanceKey| #[trigger]
                lists.contains_key(instance) == after.instance_registrations.contains_key(
                    instance,
                ) by {
                assert(mid.instance_registrations@.contains_key(instance)
                    == before.instance_registrations.contains_key(instance));
            }
            assert forall|instance: InstanceKey| #[trigger] lists.contains_key(instance) implies lists[instance]@
                == after.instance_registrations[instance] by {
                assert(before.instance_registrations.contains_key(instance));
            }
            assert(self@.instance_registrations =~= after.instance_registrations);
        }
        removed
    }

    /// Notes a response that a worker is about to send.
    pub fn register(&mut self, id: u128, handle: P, now: u64)
        requires
            old(self).wf(),
        ensures
            final(self).wf(),
            final(self)@ == old(self)@.registered(id, handle, now),
    {
        let pending = PendingResponse {
            handle,
            registered_at: now,
            bundle_id: None,
            deferred: DeferredResponse::new(),
        };
        self.pending.insert(id, pending);
        assert(self@.pending =~= old(self)@.pending.insert(id, pending@));
        assert(self@ == old(self)@.registered(id, handle, now));
    }

    /// What is known of an active response.
    pub fn active(&self, id: u128) -> (r: Option<&ActiveResponse<A>>)
        requires
            self.wf(),
        ensures
            match r {
                Some(active) => self@.active.contains_key(id) && self@.active[id] == active@,
                None => !self@.active.contains_key(id),
            },
    {
        self.active.get(&id)
    }

    /// Applies a frame that came over `bundle`.
    ///
    /// `priority` says whether the frontend runs a priority stream.
    pub fn process_server_frame(&mut self, frame: Frame, bundle: u128, priority: bool) -> (r: Result<
        FrameAction<P, A>,
        ServerFrameError,
    >)
        requires
            old(self).wf(),
        ensures
            final(self).wf(),
            final(self)@ == old(self)@.after_frame(frame@, bundle, priority),
            outcome_of(r) == response_slot::slot_step(
                old(self)@.slot(frame.registration_id),
                frame@,
                bundle,
                priority,
            ).1,
    {
        let id = frame.registration_id;
        let ghost view = frame@;
        let slot = self.take_slot(id);
        let (slot, r) = step_slot(slot, frame, bundle, priority);
        let gone = match &r {
            Ok(FrameAction::Fail { .. }) => true,
            Ok(FrameAction::Overflow { .. }) => true,
            Ok(FrameAction::Close { .. }) => true,
            _ => false,
        };
        if gone {
            self.drop_registration(id);
            proof {
                removal_ignores_slot(old(self)@, id, Slot::empty());
                removal_keeps_table(old(self)@, set![id]);
            }
        } else {
            self.put_slot(id, slot);
            assert(self@ =~= old(self)@.after_frame(view, bundle, priority));
        }
        r
    }

    /// Makes a response active whose prologue was accepted, and returns what
    /// was kept with it while it was pending.
    pub fn activate(
        &mut self,
        id: u128,
        pending: PendingResponse<P>,
        handle: A,
        bundle: u128,
        now: u64,
        priority: bool,
    ) -> (r: P)
        requires
            old(self).wf(),
        ensures
            final(self).wf(),
            r == pending.handle,
            final(self)@ == old(self)@.activated(
                id,
                response_slot::opened(pending@, handle, bundle, now, priority),
            ),
    {
        let active = ActiveResponse {
            handle,
            bundle_id: bundle,
            prologue_received_at: now,
            priority_ready: !priority,
            priority_draining: false,
            deferred: pending.deferred,
        };
        self.active.insert(id, active);
        assert(self@.active =~= old(self)@.active.insert(id, active@));
        assert(self@ == old(self)@.activated(id, active@));
        pending.handle
    }

    /// Takes out what was held back, or notes that nothing is any more.
    ///
    /// Called again after each delivery until it stops asking for one.
    pub fn drain_deferred_response(&mut self, id: u128) -> (r: DrainAction<P, A>)
        requires
            old(self).wf(),
        ensures
            final(self).wf(),
            final(self)@ == old(self)@.after_drain(id),
            drain_outcome_of(r) == response_slot::drain_step(old(self)@.slot(id)).1,
    {
        let slot = self.take_slot(id);
        match slot.active {
            None => {
                let slot = Removed { pending: slot.pending, active: None };
                self.put_slot(id, slot);
                assert(self@ =~= old(self)@.after_drain(id));
                DrainAction::Gone
            },
            Some(active) => {
                let mut active = active;
                if active.deferred.data.len() != 0 {
                    let payloads = active.deferred.take_data();
                    let slot = Removed { pending: slot.pending, active: Some(active) };
                    self.put_slot(id, slot);
                    assert(self@ =~= old(self)@.after_drain(id));
                    return DrainAction::Deliver { payloads };
                }
                active.priority_ready = true;
                active.priority_draining = false;
                let end = active.deferred.end;
                let slot = Removed { pending: slot.pending, active: Some(active) };
                if end {
                    self.drop_registration(id);
                    proof {
                        removal_ignores_slot(old(self)@, id, Slot::empty());
                        removal_keeps_table(old(self)@, set![id]);
                    }
                    DrainAction::Close { removed: slot }
                } else {
                    self.put_slot(id, slot);
                    assert(self@ =~= old(self)@.after_drain(id));
                    DrainAction::Ready
                }
            },
        }
    }

    /// Forgets `id`, and returns what was known of it.
    pub fn remove_registration(&mut self, id: u128) -> (r: Removed<P, A>)
        requires
            old(self).wf(),
        ensures
            final(self).wf(),
            r@ == old(self)@.slot(id),
            final(self)@ == old(self)@.without(set![id]),
    {
        proof {
            removal_keeps_table(self@, set![id]);
        }
        self.drop_registration(id)
    }

    /// Drops the marks of removed instances that are too old to count.
    fn prune_tombstones(&mut self, now: u64)
        requires
            old(self).wf(),
        ensures
            final(self).wf(),
            final(self)@ == old(self)@.pruned(now),
    {
        self.removed_instances.prune(now, TOMBSTONE_TTL);
        assert(self@ == old(self)@.pruned(now));
    }

    /// Associates a registration with the instance that serves it, unless the
    /// instance was removed a moment ago. In that case the registration is
    /// forgotten and what was known of it returned.
    pub fn associate_instance(&mut self, id: u128, instance: &EndpointInstanceId, now: u64) -> (r:
        Result<(), Removed<P, A>>)
        requires
            old(self).wf(),
        ensures
            final(self).wf(),
            r is Err <==> old(self)@.is_tombstoned(instance@, now),
            r is Err ==> r->Err_0@ == old(self)@.slot(id) && final(self)@ == old(self)@.pruned(
                now,
            ).without(set![id]),
            r is Ok ==> final(self)@ == old(self)@.pruned(now).associated(id, instance@),
    {
        self.prune_tombstones(now);
        if self.removed_instances.contains(instance) {
            return Err(self.remove_registration(id));
        }
        let ghost before = self@;
        self.registration_instance.insert(id, instance.clone());
        let list = match self.instance_registrations.remove(instance) {
            Some(list) => list,
            None => Vec::new(),
        };
        let mut list = list;
        list.push(id);
        self.instance_registrations.insert(instance.clone(), list);
        proof {
            let after = before.associated(id, instance@);
            assert(self@.registration_instance =~= after.registration_instance);
            assert(self@.instance_registrations =~= after.instance_registrations);
            association_keeps_table(before, id, instance@);
        }
        Ok(())
    }

    /// Forgets every registration of `instance`, and refuses new ones for it
    /// for a while. Returns the registrations, oldest first, with what was
    /// known of each when its turn came.
    pub fn cancel_instance_streams(&mut self, instance: &EndpointInstanceId, now: u64) -> (r: Vec<
        (u128, Removed<P, A>),
    >)
        requires
            old(self).wf(),
        ensures
            final(self).wf(),
            final(self)@ == old(self)@.cancelled(instance@, now),
            r@.len() == old(self)@.registrations_of(instance@).len(),
            forall|i: int|
                #![trigger r@[i]]
                0 <= i < r@.len() ==> {
                    let list = old(self)@.registrations_of(instance@);
                    &&& r@[i].0 == list[i]
                    &&& r@[i].1@ == if list.take(i).contains(list[i]) {
                        Slot::empty()
                    } else {
                        old(self)@.slot(list[i])
                    }
                },
    {
        self.prune_tombstones(now);
        self.removed_instances.insert(instance.clone(), now);
        let list: Vec<u128> = match self.instance_registrations.remove(instance) {
            Some(list) => list,
            None => Vec::new(),
        };
        let ghost start = self@;
        proof {
            let before = old(self)@;
            assert(list@ == before.registrations_of(instance@));
            assert(start =~= before.tombstoned(instance@, now));
            lemma_nothing_removed(start);
            assert(list@.take(0).to_set() =~= Set::empty());
        }
        let mut removed: Vec<(u128, Removed<P, A>)> = Vec::new();
        let mut i: usize = 0;
        while i < list.len()
            invariant
                self.tables_wf(),
                i <= list@.len(),
                self@ == start.without(list@.take(i as int).to_set()),
                removed@.len() == i,
                forall|j: int|
                    #![trigger removed@[j]]
                    0 <= j < i ==> removed@[j].0 == list@[j] && removed@[j].1@ == if list@.take(
                        j,
                    ).contains(list@[j]) {
                        Slot::empty()
                    } else {
                        start.slot(list@[j])
                    },
            decreases list@.len() - i,
        {
            let id = list[i];
            let slot = self.drop_registration(id);
            removed.push((id, slot));
            proof {
                let before = list@.take(i as int);
                removals_combine(start, before.to_set(), set![id]);
                assert(list@.take(i + 1) =~= before.push(id));
                seqs::lemma_push_to_set(before, id);
                assert(before.to_set().contains(id) == before.contains(id));
            }
            i += 1;
        }
        proof {
            assert(list@.take(list@.len() as int) =~= list@);
            cancellation_keeps_table(old(self)@, instance@, now);
        }
        removed
    }

    /// Lets `instance` take registrations again.
    pub fn clear_instance_tombstone(&mut self, instance: &EndpointInstanceId)
        requires
            old(self).wf(),
        ensures
            final(self).wf(),
            final(self)@ == (ServerModel {
                removed_instances: old(self)@.removed_instances.remove(instance@),
                ..old(self)@
            }),
    {
        self.removed_instances.remove(instance);
        assert(self@ == (ServerModel {
            removed_instances: old(self)@.removed_instances.remove(instance@),
            ..old(self)@
        }));
    }

    /// Notes the bundle of a connection. A connection that already belongs to
    /// another bundle is refused with the id of that bundle.
    pub fn register_server_connection_bundle(&mut self, connection: u64, bundle: u128) -> (r:
        Result<(), u128>)
        requires
            old(self).wf(),
        ensures
            final(self).wf(),
            match r {
                Err(existing) => {
                    &&& old(self)@.connection_bundles.get(connection) == Some(existing)
                    &&& existing != bundle
                    &&& final(self)@ == old(self)@
                },
                Ok(()) => {
                    &&& old(self)@.connection_bundles.contains_key(connection)
                        ==> old(self)@.connection_bundles[connection] == bundle
                    &&& final(self)@ == (ServerModel {
                        connection_bundles: old(self)@.connection_bundles.insert(
                            connection,
                            bundle,
                        ),
                        ..old(self)@
                    })
                },
            },
    {
        match self.connection_bundles.get(&connection) {
            Some(existing) => {
                if *existing != bundle {
                    return Err(*existing);
                }
            },
            None => {},
        }
        self.connection_bundles.insert(connection, bundle);
        Ok(())
    }

    /// Forgets every connection of `bundle`.
    fn drop_bundle(&mut self, bundle: u128)
        requires
            old(self).tables_wf(),
        ensures
            final(self).tables_wf(),
            final(self)@ == old(self)@.without_bundle(bundle),
    {
        let connections = keys_of(&self.connection_bundles);
        let ghost all = self.connection_bundles@;
        let ghost wanted = old(self)@.without_bundle(bundle).connection_bundles;
        let mut kept: HashMap<u64, u128> = HashMap::new();
        let mut i: usize = 0;
        while i < connections.len()
            invariant
                *self == *old(self),
                i <= connections@.len(),
                all == self.connection_bundles@,
                wanted == self@.without_bundle(bundle).connection_bundles,
                forall|c: u64| #[trigger] kept@.contains_key(c) ==> wanted.contains_key(c)
                    && kept@[c] == wanted[c],
                forall|j: int|
                    0 <= j < i && wanted.contains_key(#[trigger] connections@[j])
                        ==> kept@.contains_key(connections@[j]),
            decreases connections@.len() - i,
        {
            let connection: u64 = connections[i];
            match self.connection_bundles.get(&connection) {
                Some(candidate) => {
                    if *candidate != bundle {
                        kept.insert(connection, *candidate);
                    }
                },
                None => {},
            }
            i += 1;
        }
        self.connection_bundles = kept;
        proof {
            assert forall|c: u64| #[trigger] wanted.contains_key(c) implies kept@.contains_key(
                c,
            ) by {
                assert(connections@.contains(c));
            }
            assert(kept@ =~= wanted);
            assert(self@ == old(self)@.without_bundle(bundle));
        }
    }

    /// The registrations that came over `bundle`. One that is both pending and
    /// active is listed twice.
    fn registrations_of_bundle(&self, bundle: u128) -> (r: Vec<u128>)
        ensures
            r@.to_set() == self@.of_bundle(bundle),
    {
        let mut doomed: Vec<u128> = Vec::new();
        let pending = keys_of(&self.pending);
        let active = keys_of(&self.active);
        let ghost wanted = self@.of_bundle(bundle);
        let mut i: usize = 0;
        while i < pending.len()
            invariant
                i <= pending@.len(),
                wanted == self@.of_bundle(bundle),
                forall|k: int| 0 <= k < doomed@.len() ==> wanted.contains(#[trigger] doomed@[k]),
                forall|j: int|
                    0 <= j < i && self@.pending.contains_key(#[trigger] pending@[j])
                        && self@.pending[pending@[j]].bundle_id == Some(bundle)
                        ==> doomed@.contains(pending@[j]),
            decreases pending@.len() - i,
        {
            let id: u128 = pending[i];
            let ghost earlier = doomed@;
            match self.pending.get(&id) {
                Some(response) => match response.bundle_id {
                    Some(candidate) if candidate == bundle => {
                        doomed.push(id);
                        proof {
                            assert forall|x: u128| earlier.contains(x) || x == id implies #[trigger] doomed@.contains(x) by {
                                seqs::lemma_push_member(earlier, id, x);
                            }
                        }
                    },
                    _ => {},
                },
                None => {},
            }
            i += 1;
        }
        let mut k: usize = 0;
        while k < active.len()
            invariant
                k <= active@.len(),
                i == pending@.len(),
                wanted == self@.of_bundle(bundle),
                forall|k: int| 0 <= k < doomed@.len() ==> wanted.contains(#[trigger] doomed@[k]),
                forall|j: int|
                    0 <= j < i && self@.pending.contains_key(#[trigger] pending@[j])
                        && self@.pending[pending@[j]].bundle_id == Some(bundle)
                        ==> doomed@.contains(pending@[j]),
                forall|j: int|
                    0 <= j < k && self@.active.contains_key(#[trigger] active@[j])
                        && self@.active[active@[j]].bundle_id == bundle
                        ==> doomed@.contains(active@[j]),
            decreases active@.len() - k,
        {
            let id: u128 = active[k];
            let ghost earlier = doomed@;
            match self.active.get(&id) {
                Some(response) => {
                    if response.bundle_id == bundle {
                        doomed.push(id);
                        proof {
                            assert forall|x: u128| earlier.contains(x) || x == id implies #[trigger] doomed@.contains(x) by {
                                seqs::lemma_push_member(earlier, id, x);
                            }
                        }
                    }
                },
                None => {},
            }
            k += 1;
        }
        proof {
            assert forall|id: u128| #[trigger] wanted.contains(id) implies doomed@.to_set().contains(
                id,
            ) by {
                if self@.pending.contains_key(id) && self@.pending[id].bundle_id == Some(bundle) {
                    assert(pending@.contains(id));
                } else {
                    assert(active@.contains(id));
                }
            }
            assert(doomed@.to_set() =~= wanted);
        }
        doomed
    }

    /// Forgets the bundle of a failed connection, with every response that
    /// came over it, and returns what was known of those, in no particular
    /// order. Where one is listed again, nothing is left to tell of it.
    pub fn fail_server_connection(&mut self, connection: u64) -> (r: Vec<(u128, Removed<P, A>)>)
        requires
            old(self).wf(),
        ensures
            final(self).wf(),
            final(self)@ == old(self)@.failed(connection),
            ids_in(r@).to_set() == old(self)@.doomed(connection),
            forall|i: int|
                #![trigger r@[i]]
                0 <= i < r@.len() ==> r@[i].1@ == if ids_in(r@).take(i).contains(r@[i].0) {
                    Slot::empty()
                } else {
                    old(self)@.slot(r@[i].0)
                },
    {
        let mut removed: Vec<(u128, Removed<P, A>)> = Vec::new();
        let bundle: u128 = match self.connection_bundles.get(&connection) {
            Some(bundle) => *bundle,
            None => {
                assert(ids_in(removed@).to_set() =~= old(self)@.doomed(connection));
                return removed;
            },
        };
        self.drop_bundle(bundle);
        let doomed = self.registrations_of_bundle(bundle);
        let ghost start = self@;
        proof {
            lemma_nothing_removed(start);
            assert(doomed@.take(0).to_set() =~= Set::empty());
            assert(start.wf());
            assert(doomed@.to_set() =~= old(self)@.doomed(connection));
        }
        let mut i: usize = 0;
        while i < doomed.len()
            invariant
                self.tables_wf(),
                i <= doomed@.len(),
                self@ == start.without(doomed@.take(i as int).to_set()),
                removed@.len() == i,
                forall|j: int|
                    #![trigger removed@[j]]
                    0 <= j < i ==> removed@[j].0 == doomed@[j] && removed@[j].1@ == if doomed@.take(
                        j,
                    ).contains(doomed@[j]) {
                        Slot::empty()
                    } else {
                        start.slot(doomed@[j])
                    },
            decreases doomed@.len() - i,
        {
            let id: u128 = doomed[i];
            let slot = self.drop_registration(id);
            removed.push((id, slot));
            proof {
                let before = doomed@.take(i as int);
                removals_combine(start, before.to_set(), set![id]);
                assert(doomed@.take(i + 1) =~= before.push(id));
                seqs::lemma_push_to_set(before, id);
                assert(before.to_set().contains(id) == before.contains(id));
            }
            i += 1;
        }
        proof {
            assert(doomed@.take(doomed@.len() as int) =~= doomed@);
            removal_keeps_table(start, doomed@.to_set());
            assert(ids_in(removed@) =~= doomed@);
        }
        removed
    }
}

/// What the caller is asked to do is what the frame led to, with the same
/// response, payload, text and time.
pub proof fn actions_are_their_outcomes<P, A>(r: Result<FrameAction<P, A>, ServerFrameError>)
    ensures
        match r {
            Err(error) => outcome_of(r) == FrameOutcome::<P, A>::Invalid { error },
            Ok(FrameAction::Reset) => outcome_of(r) is Reset,
            Ok(FrameAction::Open { pending }) => outcome_of(r) is Open && outcome_of(
                r,
            )->Open_pending == pending@,
            Ok(FrameAction::Fail { pending, message, active }) => {
                &&& outcome_of(r) is Fail
                &&& outcome_of(r)->Fail_pending == pending@
                &&& outcome_of(r)->message == message@
                &&& outcome_of(r)->active is Some <==> active is Some
                &&& active is Some ==> outcome_of(r)->active->0 == active->0@
            },
            Ok(FrameAction::BeginDrain { first, prologue_received_at }) => {
                &&& outcome_of(r) is BeginDrain
                &&& outcome_of(r)->first is Some <==> first is Some
                &&& first is Some ==> outcome_of(r)->first->0 == first->0@
                &&& outcome_of(r)->prologue_received_at == prologue_received_at
            },
            Ok(FrameAction::Deferred) => outcome_of(r) is Deferred,
            Ok(FrameAction::Deliver { payload }) => outcome_of(r) is Deliver && outcome_of(
                r,
            )->payload == payload@,
            Ok(FrameAction::Overflow { removed }) => outcome_of(r) is Overflow && outcome_of(
                r,
            )->Overflow_removed == removed@,
            Ok(FrameAction::Close { removed }) => outcome_of(r) is Close && outcome_of(
                r,
            )->Close_removed == removed@,
        },
{
}

/// What a round of delivering asks for is what it led to.
pub proof fn rounds_are_their_outcomes<P, A>(r: DrainAction<P, A>)
    ensures
        match r {
            DrainAction::Gone => drain_outcome_of(r) is Gone,
            DrainAction::Ready => drain_outcome_of(r) is Ready,
            DrainAction::Deliver { payloads } => drain_outcome_of(r) is Deliver
                && drain_outcome_of(r)->payloads.len() == payloads@.len() && forall|i: int|
                0 <= i < payloads@.len() ==> #[trigger] drain_outcome_of(r)->payloads[i]
                    == payloads@[i]@,
            DrainAction::Close { removed } => drain_outcome_of(r) is Close && drain_outcome_of(
                r,
            )->removed == removed@,
        },
{
}

/// What is known of a registration is what its tables hold.
pub proof fn slots_hold_what_is_known<P, A>(
    m: ServerModel<P, A>,
    id: u128,
    slot: Slot<P, A>,
    removed: Removed<P, A>,
)
    ensures
        m.slot(id).pending is Some <==> m.pending.contains_key(id),
        m.slot(id).active is Some <==> m.active.contains_key(id),
        m.pending.contains_key(id) ==> m.slot(id).pending->0 == m.pending[id],
        m.active.contains_key(id) ==> m.slot(id).active->0 == m.active[id],
        m.with_slot(id, slot).slot(id) == slot,
        removed@.pending is Some <==> removed.pending is Some,
        removed@.active is Some <==> removed.active is Some,
        removed.pending is Some ==> removed@.pending->0 == removed.pending->0@,
        removed.active is Some ==> removed@.active->0 == removed.active->0@,
{
}

/// A frame that ends its response leaves nothing of it, and any other leaves
/// what the frame made of it. Instances, their marks and connections stay.
pub proof fn frames_change_their_response<P, A>(
    m: ServerModel<P, A>,
    frame: FrameView,
    bundle: u128,
    priority: bool,
)
    ensures
        ({
            let id = frame.registration_id;
            let (slot, outcome) = response_slot::slot_step(m.slot(id), frame, bundle, priority);
            let after = m.after_frame(frame, bundle, priority);
            &&& outcome is Fail || outcome is Overflow || outcome is Close ==> {
                &&& !after.pending.contains_key(id)
                &&& !after.active.contains_key(id)
                &&& !after.registration_instance.contains_key(id)
            }
            &&& !(outcome is Fail || outcome is Overflow || outcome is Close) ==> {
                &&& after.slot(id) == slot
                &&& after.registration_instance == m.registration_instance
                &&& after.instance_registrations == m.instance_registrations
            }
            &&& after.removed_instances == m.removed_instances
            &&& after.connection_bundles == m.connection_bundles
        }),
{
}

/// A round of delivering changes its response and no other, and a response that
/// it closes is gone.
pub proof fn rounds_change_their_response<P, A>(m: ServerModel<P, A>, id: u128, other: u128)
    requires
        other != id,
    ensures
        ({
            let (slot, outcome) = response_slot::drain_step(m.slot(id));
            let after = m.after_drain(id);
            &&& outcome is Close ==> !after.pending.contains_key(id)
                && !after.active.contains_key(id) && !after.registration_instance.contains_key(id)
            &&& !(outcome is Close) ==> after.slot(id) == slot && after.registration_instance
                == m.registration_instance
            &&& after.slot(other) == m.slot(other)
            &&& after.removed_instances == m.removed_instances
            &&& after.connection_bundles == m.connection_bundles
        }),
{
}

/// A registered response waits for its prologue with nothing held back, and
/// belongs to no bundle yet. One that is made active is active. Neither touches
/// any other.
pub proof fn registering_and_activating<P, A>(
    m: ServerModel<P, A>,
    id: u128,
    other: u128,
    handle: P,
    active: ActiveView<A>,
    now: u64,
)
    requires
        other != id,
    ensures
        ({
            let after = m.registered(id, handle, now);
            &&& after.pending.contains_key(id)
            &&& after.pending[id].handle == handle
            &&& after.pending[id].registered_at == now
            &&& after.pending[id].bundle_id is None
            &&& after.pending[id].deferred.data.len() == 0
            &&& after.pending[id].deferred.bytes == 0
            &&& !after.pending[id].deferred.end
            &&& after.active == m.active
            &&& after.slot(other) == m.slot(other)
            &&& after.registration_instance == m.registration_instance
        }),
        ({
            let after = m.activated(id, active);
            &&& after.active.contains_key(id)
            &&& after.active[id] == active
            &&& after.pending == m.pending
            &&& after.slot(other) == m.slot(other)
            &&& after.registration_instance == m.registration_instance
        }),
{
}

/// An associated registration is the last one of its instance. The responses
/// themselves and the lists of other instances stay.
pub proof fn associations_are_listed<P, A>(
    m: ServerModel<P, A>,
    id: u128,
    instance: InstanceKey,
    other: InstanceKey,
)
    requires
        other != instance,
    ensures
        ({
            let after = m.associated(id, instance);
            &&& after.registration_instance.contains_key(id)
            &&& after.registration_instance[id] == instance
            &&& after.registrations_of(instance) == m.registrations_of(instance).push(id)
            &&& after.registrations_of(other) == m.registrations_of(other)
            &&& after.pending == m.pending
            &&& after.active == m.active
            &&& after.removed_instances == m.removed_instances
        }),
{
}

/// Removing an instance removes its registrations and no other, and marks it.
/// Marks are forgotten once they are five seconds old.
pub proof fn removed_instances_are_marked<P, A>(
    m: ServerModel<P, A>,
    instance: InstanceKey,
    other: InstanceKey,
    id: u128,
    now: u64,
)
    requires
        other != instance,
    ensures
        ({
            let after = m.cancelled(instance, now);
            &&& after.removed_instances.contains_key(instance)
            &&& after.removed_instances[instance] == now
            &&& m.registrations_of(instance).contains(id) ==> !after.pending.contains_key(id)
                && !after.active.contains_key(id) && !after.registration_instance.contains_key(id)
            &&& !m.registrations_of(instance).contains(id) ==> after.slot(id) == m.slot(id)
            &&& after.removed_instances.contains_key(other)
                <==> m.removed_instances.contains_key(other) && (now <= m.removed_instances[other]
                || now - m.removed_instances[other] < 5_000_000_000)
            &&& after.connection_bundles == m.connection_bundles
        }),
        m.is_tombstoned(other, now) <==> m.removed_instances.contains_key(other) && (now
            <= m.removed_instances[other] || now - m.removed_instances[other] < 5_000_000_000),
        m.pruned(now).removed_instances.contains_key(other) <==> m.is_tombstoned(other, now),
        m.pruned(now).pending == m.pending,
        m.pruned(now).active == m.active,
{
    assert(m.registrations_of(instance).to_set().contains(id) <==> m.registrations_of(
        instance,
    ).contains(id));
}

/// The responses of a bundle are those that belong to it, whether they have
/// begun or not.
pub proof fn bundles_hold_their_responses<P, A>(m: ServerModel<P, A>, bundle: u128, id: u128)
    ensures
        m.of_bundle(bundle).contains(id) <==> (m.pending.contains_key(id)
            && m.pending[id].bundle_id == Some(bundle)) || (m.active.contains_key(id)
            && m.active[id].bundle_id == bundle),
{
}

} // verus!
