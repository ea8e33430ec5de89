//! From the choice of a worker to the end of the last request that uses it.

use crate::session_affinity::coordinator;
use crate::session_affinity::coordinator::{
    update_view, validate_bound_target, AcquireOutcome, AffinityCoordinator, AffinityError, AffinityRoutingBinding,
    CoordinatorView, SessionAffinityUpdate, UpdateView, MAX_TTL,
};
use crate::session_affinity::entries::AffinityEntry;
use crate::session_affinity::state::{
    normalize_expired_replica_fence, AffinityRevision, AffinityTarget, ReplicaBinding,
};
use vstd::prelude::*;

verus! {

/// A request that chooses the worker of its session.
#[derive(Debug)]
pub struct AffinityInitialization {
    pub session_id: String,
    pub revision: AffinityRevision,
    pub generation: u64,
    pub requested_target: Option<AffinityTarget>,
}

/// A request that uses the binding of its session.
#[derive(Debug)]
pub struct AffinityLease {
    pub session_id: String,
    pub revision: AffinityRevision,
    pub generation: u64,
    pub active: bool,
}

/// A session that a request has acquired.
#[derive(Debug)]
pub enum AffinityAcquire {
    Initialize(AffinityInitialization),
    Bound { target: AffinityTarget, hard_constraint: bool, lease: AffinityLease },
}

/// What identifies an initialization or a lease.
#[verifier::ext_equal]
pub struct Ticket {
    pub session_id: Seq<char>,
    pub revision: AffinityRevision,
    pub generation: u64,
}

impl AffinityInitialization {
    pub open spec fn ticket(&self) -> Ticket {
        Ticket {
            session_id: self.session_id@,
            revision: self.revision,
            generation: self.generation,
        }
    }
}

impl AffinityLease {
    pub open spec fn ticket(&self) -> Ticket {
        Ticket {
            session_id: self.session_id@,
            revision: self.revision,
            generation: self.generation,
        }
    }
}

/// A lease as a mathematical value.
#[verifier::ext_equal]
pub struct LeaseView {
    pub ticket: Ticket,
    pub active: bool,
}

impl View for AffinityLease {
    type V = LeaseView;

    open spec fn view(&self) -> LeaseView {
        LeaseView { ticket: self.ticket(), active: self.active }
    }
}

impl CoordinatorView {
    pub open spec fn knows(self, ticket: Ticket) -> bool {
        self.entries.contains_key(ticket.session_id)
    }

    /// Whether the initialization is still under way.
    pub open spec fn is_initializing(self, ticket: Ticket) -> bool {
        &&& self.knows(ticket)
        &&& self.entries[ticket.session_id] matches AffinityEntry::Initializing {
            revision,
            generation,
            ..
        }
        &&& revision == ticket.revision
        &&& generation == ticket.generation
    }

    /// What other routers announced during an initialization.
    pub open spec fn pending(self, ticket: Ticket) -> Option<ReplicaBinding> {
        self.entries[ticket.session_id].pending()
    }

    /// An initialization was given up. What other routers announced stays.
    pub open spec fn abandoned(self, ticket: Ticket, now: u64) -> Self {
        if !self.is_initializing(ticket) {
            self
        } else {
            match self.pending(ticket) {
                Some(binding) => self.with(
                    ticket.session_id,
                    bound(binding.at(now), ticket.generation, 0, self.deadline(now)),
                ),
                None => self.without(ticket.session_id),
            }
        }
    }

    /// The binding that an initialization leads to: the target that was chosen,
    /// unless another router's fence stands.
    pub open spec fn settled(self, ticket: Ticket, target: AffinityTarget, now: u64) -> ReplicaBinding {
        let own = ReplicaBinding { target, revision: self.revision(), legacy_fence: None };
        match self.pending(ticket) {
            Some(binding) => if binding.at(now).legacy_fence is Some {
                binding.at(now)
            } else {
                own
            },
            None => own,
        }
    }

    /// Why an initialization cannot be committed, if it cannot.
    pub open spec fn commit_error(
        self,
        ticket: Ticket,
        target: AffinityTarget,
        requested: Option<AffinityTarget>,
    ) -> Option<AffinityError> {
        let conflict = coordinator::target_conflict(target, requested);
        if conflict is Some {
            conflict
        } else if !self.knows(ticket) {
            Some(AffinityError::InitializationCancelled)
        } else if !self.is_initializing(ticket) {
            Some(AffinityError::InitializationChanged)
        } else {
            None
        }
    }

    /// An initialization was committed.
    pub open spec fn committed(self, ticket: Ticket, target: AffinityTarget, now: u64) -> Self {
        self.revised().with(
            ticket.session_id,
            bound(self.settled(ticket, target, now), ticket.generation, 1, self.deadline(now)),
        )
    }

    /// The binding that a lease belongs to, if it is still the same.
    pub open spec fn leased(self, ticket: Ticket) -> bool {
        &&& self.knows(ticket)
        &&& self.entries[ticket.session_id] matches AffinityEntry::Bound { generation, .. }
        &&& generation == ticket.generation
    }

    /// What there is to announce of a session's binding: nothing while it has
    /// no revision of its own or is fenced.
    pub open spec fn announcement(self, session_id: Seq<char>) -> Option<UpdateView> {
        match self.entries[session_id] {
            AffinityEntry::Bound { target, revision, legacy_fence, .. } => if self.replica_enabled
                && !revision.legacy() && legacy_fence is None {
                Some(UpdateView { session_id, target, revision })
            } else {
                None
            },
            AffinityEntry::Initializing { .. } => None,
        }
    }

    /// What a lease announces.
    pub open spec fn published(self, ticket: Ticket) -> Option<UpdateView> {
        if self.leased(ticket) {
            self.announcement(ticket.session_id)
        } else {
            None
        }
    }

    /// A lease has ended.
    pub open spec fn released(self, ticket: Ticket, now: u64) -> Self {
        if !self.leased(ticket) {
            self
        } else {
            match self.entries[ticket.session_id] {
                AffinityEntry::Bound {
                    target,
                    revision,
                    generation,
                    active_leases,
                    idle_deadline,
                    legacy_fence,
                } => if active_leases == 0 {
                    self
                } else {
                    self.with(
                        ticket.session_id,
                        AffinityEntry::Bound {
                            target,
                            revision,
                            generation,
                            active_leases: (active_leases - 1) as usize,
                            idle_deadline: self.deadline(now),
                            legacy_fence,
                        },
                    )
                },
                AffinityEntry::Initializing { .. } => self,
            }
        }
    }

    /// What the end of a lease announces.
    pub open spec fn release_announcement(self, ticket: Ticket) -> Option<UpdateView> {
        if self.leased(ticket) && self.entries[ticket.session_id].leases() > 0 {
            self.announcement(ticket.session_id)
        } else {
            None
        }
    }

    /// Whether a lease may bind its session anew: nobody else has, and no fence
    /// stands.
    pub open spec fn can_rebind(self, ticket: Ticket) -> bool {
        &&& self.leased(ticket)
        &&& self.entries[ticket.session_id] matches AffinityEntry::Bound {
            revision,
            legacy_fence,
            ..
        }
        &&& revision == ticket.revision
        &&& legacy_fence is None
    }

    /// A lease has bound its session to another target.
    pub open spec fn rebound(self, ticket: Ticket, target: AffinityTarget) -> Self {
        match self.entries[ticket.session_id] {
            AffinityEntry::Bound {
                generation,
                active_leases,
                idle_deadline,
                ..
            } => self.revised().with(
                ticket.session_id,
                AffinityEntry::Bound {
                    target,
                    revision: self.revision(),
                    generation,
                    active_leases,
                    idle_deadline,
                    legacy_fence: None,
                },
            ),
            AffinityEntry::Initializing { .. } => self,
        }
    }

    /// Whether the session is still bound just as the lease knows it.
    pub open spec fn is_unchanged(self, ticket: Ticket, expected: AffinityTarget) -> bool {
        &&& self.knows(ticket)
        &&& self.entries[ticket.session_id] matches AffinityEntry::Bound {
            target,
            revision,
            generation,
            ..
        }
        &&& target == expected
        &&& revision == ticket.revision
        &&& generation == ticket.generation
    }

    /// A lease has found its target wanting.
    pub open spec fn invalidated(self, ticket: Ticket, expected: AffinityTarget, now: u64) -> Self {
        if self.is_unchanged(ticket, expected) {
            self.without(ticket.session_id)
        } else {
            self.released(ticket, now)
        }
    }
}

pub open spec fn bound(
    binding: ReplicaBinding,
    generation: u64,
    active_leases: usize,
    idle_deadline: u64,
) -> AffinityEntry {
    AffinityEntry::Bound {
        target: binding.target,
        revision: binding.revision,
        generation,
        active_leases,
        idle_deadline,
        legacy_fence: binding.legacy_fence,
    }
}

impl AffinityInitialization {
    /// Binds the session to `target` and leases the binding. Where that cannot
    /// be, the initialization is given up.
    pub fn commit(self, coordinator: &mut AffinityCoordinator, target: AffinityTarget, now: u64) -> (r:
        Result<AffinityLease, AffinityError>)
        requires
            old(coordinator)@.wf(),
            now + MAX_TTL <= u64::MAX,
        ensures
            final(coordinator)@.wf(),
            match old(coordinator)@.commit_error(self.ticket(), target, self.requested_target) {
                Some(error) => {
                    &&& r is Err && r->Err_0 == error
                    &&& final(coordinator)@ == old(coordinator)@.abandoned(self.ticket(), now)
                },
                None => {
                    &&& r is Ok
                    &&& r->Ok_0@ == (LeaseView {
                        ticket: Ticket {
                            revision: old(coordinator)@.settled(
                                self.ticket(),
                                target,
                                now,
                            ).revision,
                            ..self.ticket()
                        },
                        active: true,
                    })
                    &&& final(coordinator)@ == old(coordinator)@.committed(
                        self.ticket(),
                        target,
                        now,
                    )
                    &&& old(coordinator)@.last_sequence < u64::MAX && old(coordinator)@.settled(
                        self.ticket(),
                        target,
                        now,
                    ).legacy_fence is None ==> r->Ok_0.revision.after(self.revision)
                },
            },
    {
        match validate_bound_target(target, self.requested_target) {
            Ok(()) => {},
            Err(error) => {
                self.abandon(coordinator, now);
                return Err(error);
            },
        }
        let pending_replica = match coordinator.entry(self.session_id.as_str()) {
            None => {
                self.abandon(coordinator, now);
                return Err(AffinityError::InitializationCancelled);
            },
            Some(AffinityEntry::Bound { .. }) => {
                self.abandon(coordinator, now);
                return Err(AffinityError::InitializationChanged);
            },
            Some(AffinityEntry::Initializing { revision, generation, pending_replica }) => {
                if revision != self.revision || generation != self.generation {
                    self.abandon(coordinator, now);
                    return Err(AffinityError::InitializationChanged);
                }
                pending_replica
            },
        };
        let revision = coordinator.next_revision();
        let mut binding = ReplicaBinding { target, revision, legacy_fence: None };
        if let Some(pending) = pending_replica {
            let mut pending = pending;
            normalize_expired_replica_fence(&mut pending, now);
            if pending.legacy_fence.is_some() {
                binding = pending;
            }
        }
        let idle_deadline: u64 = now + coordinator.ttl();
        coordinator.set_entry(
            self.session_id.as_str(),
            AffinityEntry::Bound {
                target: binding.target,
                revision: binding.revision,
                generation: self.generation,
                active_leases: 1,
                idle_deadline,
                legacy_fence: binding.legacy_fence,
            },
        );
        Ok(
            AffinityLease {
                session_id: self.session_id,
                revision: binding.revision,
                generation: self.generation,
                active: true,
            },
        )
    }

    /// Gives the initialization up.
    pub fn abandon(self, coordinator: &mut AffinityCoordinator, now: u64)
        requires
            old(coordinator)@.wf(),
            now + MAX_TTL <= u64::MAX,
        ensures
            final(coordinator)@.wf(),
            final(coordinator)@ == old(coordinator)@.abandoned(self.ticket(), now),
    {
        match coordinator.entry(self.session_id.as_str()) {
            Some(AffinityEntry::Initializing { revision, generation, pending_replica }) => {
                if revision == self.revision && generation == self.generation {
                    match pending_replica {
                        Some(binding) => {
                            let mut binding = binding;
                            normalize_expired_replica_fence(&mut binding, now);
                            let idle_deadline: u64 = now + coordinator.ttl();
                            coordinator.set_entry(
                                self.session_id.as_str(),
                                AffinityEntry::Bound {
                                    target: binding.target,
                                    revision: binding.revision,
                                    generation: self.generation,
                                    active_leases: 0,
                                    idle_deadline,
                                    legacy_fence: binding.legacy_fence,
                                },
                            );
                        },
                        None => {
                            coordinator.drop_entry(self.session_id.as_str());
                        },
                    }
                }
            },
            _ => {},
        }
    }
}

impl AffinityLease {
    /// What to announce of the binding as it is now.
    pub fn publish_current(&self, coordinator: &AffinityCoordinator) -> (r: Option<
        SessionAffinityUpdate,
    >)
        ensures
            update_view(r) == coordinator@.published(self.ticket()),
    {
        match coordinator.entry(self.session_id.as_str()) {
            Some(AffinityEntry::Bound { target, revision, generation, legacy_fence, .. }) => {
                if generation == self.generation && revision.is_versioned()
                    && legacy_fence.is_none() {
                    coordinator.publish_replica_update(self.session_id.as_str(), target, revision)
                } else {
                    None
                }
            },
            _ => None,
        }
    }

    /// Binds the session to another target, unless somebody else has meanwhile
    /// or a fence stands. A lease whose binding is gone becomes inactive.
    pub fn rebind(&mut self, coordinator: &mut AffinityCoordinator, target: AffinityTarget) -> (r:
        bool)
        requires
            old(coordinator)@.wf(),
        ensures
            final(coordinator)@.wf(),
            r == (old(self).active && old(coordinator)@.can_rebind(old(self).ticket())),
            r ==> {
                &&& final(coordinator)@ == old(coordinator)@.rebound(old(self).ticket(), target)
                &&& final(self)@ == (LeaseView {
                    ticket: Ticket {
                        revision: old(coordinator)@.revision(),
                        ..old(self).ticket()
                    },
                    active: true,
                })
            },
            !r ==> {
                &&& final(coordinator)@ == old(coordinator)@
                &&& final(self)@ == (LeaseView {
                    ticket: old(self).ticket(),
                    active: old(self).active && old(coordinator)@.leased(old(self).ticket()),
                })
            },
            r && old(coordinator)@.last_sequence < u64::MAX ==> final(self).revision.after(
                old(self).revision,
            ),
    {
        if !self.active {
            return false;
        }
        match coordinator.entry(self.session_id.as_str()) {
            Some(
                AffinityEntry::Bound {
                    revision,
                    generation,
                    active_leases,
                    idle_deadline,
                    legacy_fence,
                    ..
                },
            ) => {
                if generation != self.generation {
                    self.active = false;
                    return false;
                }
                if revision != self.revision || legacy_fence.is_some() {
                    return false;
                }
                let revision = coordinator.next_revision();
                coordinator.set_entry(
                    self.session_id.as_str(),
                    AffinityEntry::Bound {
                        target,
                        revision,
                        generation,
                        active_leases,
                        idle_deadline,
                        legacy_fence: None,
                    },
                );
                self.revision = revision;
                true
            },
            _ => {
                self.active = false;
                false
            },
        }
    }

    /// Ends the lease. Returns what to announce.
    pub fn release(&mut self, coordinator: &mut AffinityCoordinator, now: u64) -> (r: Option<
        SessionAffinityUpdate,
    >)
        requires
            old(coordinator)@.wf(),
            now + MAX_TTL <= u64::MAX,
        ensures
            final(coordinator)@.wf(),
            final(self)@ == (LeaseView { active: false, ..old(self)@ }),
            !old(self).active ==> final(coordinator)@ == old(coordinator)@ && update_view(r)
                is None,
            old(self).active ==> {
                &&& final(coordinator)@ == old(coordinator)@.released(old(self).ticket(), now)
                &&& update_view(r) == old(coordinator)@.release_announcement(old(self).ticket())
            },
    {
        if !self.active {
            return None;
        }
        self.active = false;
        match coordinator.entry(self.session_id.as_str()) {
            Some(
                AffinityEntry::Bound {
                    target,
                    revision,
                    generation,
                    active_leases,
                    idle_deadline: _,
                    legacy_fence,
                },
            ) => {
                if generation != self.generation || active_leases == 0 {
                    return None;
                }
                let idle_deadline: u64 = now + coordinator.ttl();
                coordinator.set_entry(
                    self.session_id.as_str(),
                    AffinityEntry::Bound {
                        target,
                        revision,
                        generation,
                        active_leases: active_leases - 1,
                        idle_deadline,
                        legacy_fence,
                    },
                );
                if revision.is_versioned() && legacy_fence.is_none() {
                    coordinator.publish_replica_update(self.session_id.as_str(), target, revision)
                } else {
                    None
                }
            },
            _ => None,
        }
    }

    /// Forgets the binding if it is still as the lease knows it, and ends the
    /// lease otherwise. Returns what to announce.
    pub fn invalidate(
        &mut self,
        coordinator: &mut AffinityCoordinator,
        expected_target: AffinityTarget,
        now: u64,
    ) -> (r: Option<SessionAffinityUpdate>)
        requires
            old(coordinator)@.wf(),
            now + MAX_TTL <= u64::MAX,
        ensures
            final(coordinator)@.wf(),
            final(self)@ == (LeaseView { active: false, ..old(self)@ }),
            !old(self).active ==> final(coordinator)@ == old(coordinator)@ && update_view(r)
                is None,
            old(self).active ==> {
                let ticket = old(self).ticket();
                &&& final(coordinator)@ == old(coordinator)@.invalidated(
                    ticket,
                    expected_target,
                    now,
                )
                &&& update_view(r) == if old(coordinator)@.is_unchanged(ticket, expected_target) {
                    None
                } else {
                    old(coordinator)@.release_announcement(ticket)
                }
            },
    {
        if !self.active {
            return None;
        }
        let unchanged = match coordinator.entry(self.session_id.as_str()) {
            Some(AffinityEntry::Bound { target, revision, generation, .. }) => target
                == expected_target && revision == self.revision && generation == self.generation,
            _ => false,
        };
        if unchanged {
            coordinator.drop_entry(self.session_id.as_str());
            self.active = false;
            None
        } else {
            self.release(coordinator, now)
        }
    }
}

impl AffinityAcquire {
    pub fn target(&self) -> (r: Option<AffinityTarget>)
        ensures
            r == match *self {
                AffinityAcquire::Initialize(_) => None,
                AffinityAcquire::Bound { target, .. } => Some(target),
            },
    {
        match self {
            AffinityAcquire::Initialize(_) => None,
            AffinityAcquire::Bound { target, .. } => Some(*target),
        }
    }

    pub fn routing_binding(&self) -> (r: Option<AffinityRoutingBinding>)
        ensures
            r == match *self {
                AffinityAcquire::Initialize(_) => None,
                AffinityAcquire::Bound { target, hard_constraint, .. } => Some(
                    AffinityRoutingBinding { target, hard_constraint },
                ),
            },
    {
        match self {
            AffinityAcquire::Initialize(_) => None,
            AffinityAcquire::Bound { target, hard_constraint, .. } => Some(
                AffinityRoutingBinding { target: *target, hard_constraint: *hard_constraint },
            ),
        }
    }

    /// Settles on the worker that was selected, when its response begins.
    /// Returns the lease that lasts as long as the response, and what to
    /// announce.
    pub fn into_stream(
        self,
        coordinator: &mut AffinityCoordinator,
        selected_target: AffinityTarget,
        now: u64,
    ) -> (r: Result<(AffinityLease, Option<SessionAffinityUpdate>), AffinityError>)
        requires
            old(coordinator)@.wf(),
            now + MAX_TTL <= u64::MAX,
            self matches AffinityAcquire::Bound { lease, .. } ==> lease.active,
        ensures
            final(coordinator)@.wf(),
            match self {
                AffinityAcquire::Initialize(initialization) => {
                    let ticket = initialization.ticket();
                    match old(coordinator)@.commit_error(
                        ticket,
                        selected_target,
                        initialization.requested_target,
                    ) {
                        Some(error) => r is Err && r->Err_0 == error && final(coordinator)@ == old(
                            coordinator,
                        )@.abandoned(ticket, now),
                        None => {
                            &&& r is Ok
                            &&& final(coordinator)@ == old(coordinator)@.committed(
                                ticket,
                                selected_target,
                                now,
                            )
                            &&& r->Ok_0.0@.active
                            &&& r->Ok_0.0@.ticket.session_id == ticket.session_id
                            &&& r->Ok_0.0@.ticket.generation == ticket.generation
                            &&& r->Ok_0.0@.ticket.revision == old(coordinator)@.settled(
                                ticket,
                                selected_target,
                                now,
                            ).revision
                            &&& update_view(r->Ok_0.1) == final(coordinator)@.announcement(
                                ticket.session_id,
                            )
                        },
                    }
                },
                AffinityAcquire::Bound { target, lease, .. } => {
                    let before = old(coordinator)@;
                    let ticket = lease.ticket();
                    let rebinds = (target != selected_target || ticket.revision.legacy())
                        && before.can_rebind(ticket);
                    &&& r is Ok
                    &&& final(coordinator)@ == if rebinds {
                        before.rebound(ticket, selected_target)
                    } else {
                        before
                    }
                    &&& r->Ok_0.0@.ticket == (Ticket {
                        revision: if rebinds {
                            before.revision()
                        } else {
                            ticket.revision
                        },
                        ..ticket
                    })
                    &&& r->Ok_0.0@.active == (before.leased(ticket) || (target == selected_target
                        && !ticket.revision.legacy()))
                    &&& update_view(r->Ok_0.1) == if target == selected_target || rebinds {
                        final(coordinator)@.published(ticket)
                    } else {
                        None
                    }
                },
            },
    {
        match self {
            AffinityAcquire::Initialize(initialization) => {
                match initialization.commit(coordinator, selected_target, now) {
                    Ok(lease) => {
                        let update = lease.publish_current(coordinator);
                        Ok((lease, update))
                    },
                    Err(error) => Err(error),
                }
            },
            AffinityAcquire::Bound { target, lease, .. } => {
                let mut lease = lease;
                let mut update: Option<SessionAffinityUpdate> = None;
                if target == selected_target {
                    if lease.revision.is_legacy() {
                        lease.rebind(coordinator, selected_target);
                    }
                    update = lease.publish_current(coordinator);
                } else if lease.rebind(coordinator, selected_target) {
                    update = lease.publish_current(coordinator);
                }
                Ok((lease, update))
            },
        }
    }

    /// Forgets a binding that was used and failed. A request that does not use
    /// it, or went elsewhere, is only given up. Returns what to announce.
    pub fn invalidate_selected(
        self,
        coordinator: &mut AffinityCoordinator,
        selected_target: AffinityTarget,
        now: u64,
    ) -> (r: Option<SessionAffinityUpdate>)
        requires
            old(coordinator)@.wf(),
            now + MAX_TTL <= u64::MAX,
            self matches AffinityAcquire::Bound { lease, .. } ==> lease.active,
        ensures
            final(coordinator)@.wf(),
            match self {
                AffinityAcquire::Initialize(initialization) => final(coordinator)@ == old(
                    coordinator,
                )@.abandoned(initialization.ticket(), now) && update_view(r) is None,
                AffinityAcquire::Bound { target, lease, .. } => {
                    let before = old(coordinator)@;
                    let ticket = lease.ticket();
                    let forgets = target == selected_target && before.is_unchanged(ticket, target);
                    &&& final(coordinator)@ == if forgets {
                        before.without(ticket.session_id)
                    } else {
                        before.released(ticket, now)
                    }
                    &&& update_view(r) == if forgets {
                        None
                    } else {
                        before.release_announcement(ticket)
                    }
                },
            },
    {
        match self {
            AffinityAcquire::Initialize(initialization) => {
                initialization.abandon(coordinator, now);
                None
            },
            AffinityAcquire::Bound { target, lease, .. } => {
                let mut lease = lease;
                if target == selected_target {
                    lease.invalidate(coordinator, target, now)
                } else {
                    lease.release(coordinator, now)
                }
            },
        }
    }

    /// Forgets the binding that was used. Returns what to announce.
    pub fn invalidate(self, coordinator: &mut AffinityCoordinator, now: u64) -> (r: Option<
        SessionAffinityUpdate,
    >)
        requires
            old(coordinator)@.wf(),
            now + MAX_TTL <= u64::MAX,
            self matches AffinityAcquire::Bound { lease, .. } ==> lease.active,
        ensures
            final(coordinator)@.wf(),
            match self {
                AffinityAcquire::Initialize(initialization) => final(coordinator)@ == old(
                    coordinator,
                )@.abandoned(initialization.ticket(), now) && update_view(r) is None,
                AffinityAcquire::Bound { target, lease, .. } => {
                    let before = old(coordinator)@;
                    let ticket = lease.ticket();
                    &&& final(coordinator)@ == before.invalidated(ticket, target, now)
                    &&& update_view(r) == if before.is_unchanged(ticket, target) {
                        None
                    } else {
                        before.release_announcement(ticket)
                    }
                },
            },
    {
        match self {
            AffinityAcquire::Initialize(initialization) => {
                initialization.abandon(coordinator, now);
                None
            },
            AffinityAcquire::Bound { target, lease, .. } => {
                let mut lease = lease;
                lease.invalidate(coordinator, target, now)
            },
        }
    }
}

/// Once a request has settled on a worker, the next request of the session
/// finds that worker, however much later, while the first still runs.
pub proof fn session_stays_on_its_worker(
    c: CoordinatorView,
    ticket: Ticket,
    target: AffinityTarget,
    now: u64,
    later: u64,
)
    requires
        c.is_initializing(ticket),
        c.pending(ticket) is None,
        !c.too_long(ticket.session_id),
    ensures
        c.committed(ticket, target, now).acquired(ticket.session_id, later).1 == (
        AcquireOutcome::Bound {
            target,
            hard_constraint: false,
            revision: c.revision(),
            generation: ticket.generation,
        }),
{
}

/// After the last request has ended, the session stays on its worker until the
/// time to keep the binding is up, and no longer.
pub proof fn idle_binding_is_kept_for_its_time(
    c: CoordinatorView,
    ticket: Ticket,
    target: AffinityTarget,
    now: u64,
    end: u64,
    later: u64,
)
    requires
        c.wf(),
        c.is_initializing(ticket),
        c.pending(ticket) is None,
        !c.too_long(ticket.session_id),
        end + c.ttl <= u64::MAX,
    ensures
        ({
            let lease = Ticket { revision: c.revision(), ..ticket };
            let idle = c.committed(ticket, target, now).released(lease, end);
            let binding = idle.binding(ticket.session_id, later);
            &&& later < end + c.ttl ==> binding == Some(
                AffinityRoutingBinding { target, hard_constraint: false },
            )
            &&& later >= end + c.ttl ==> binding is None && !idle.reaped(
                later,
            ).entries.contains_key(ticket.session_id)
        }),
{
}

/// A request that gives up choosing the worker leaves the sessions as it found
/// them.
pub proof fn abandoning_undoes_acquiring(c: CoordinatorView, session_id: Seq<char>, now: u64, end: u64)
    requires
        !c.too_long(session_id),
        !c.entries.contains_key(session_id),
        c.entry_count < c.max_entries,
    ensures
        ({
            let ticket = Ticket {
                session_id,
                revision: c.revision(),
                generation: c.next_generation,
            };
            let after = c.acquired(session_id, now).0.abandoned(ticket, end);
            &&& after.entries == c.entries
            &&& after.entry_count == c.entry_count
        }),
{
    let ticket = Ticket { session_id, revision: c.revision(), generation: c.next_generation };
    let after = c.acquired(session_id, now).0.abandoned(ticket, end);
    assert(after.entries =~= c.entries);
}

/// Releasing a lease gives back what acquiring it took.
pub proof fn releasing_undoes_acquiring(c: CoordinatorView, session_id: Seq<char>, now: u64, end: u64)
    requires
        c.entries.contains_key(session_id),
        c.entries[session_id].leases() < usize::MAX,
        c.acquired(session_id, now).1 is Bound,
    ensures
        ({
            let outcome = c.acquired(session_id, now).1;
            let ticket = Ticket {
                session_id,
                revision: outcome->Bound_revision,
                generation: outcome->Bound_generation,
            };
            let after = c.acquired(session_id, now).0.released(ticket, end);
            after.entries[session_id].leases() == c.entries[session_id].leases()
        }),
{
}

/// A lease of a binding that was replaced meanwhile ends without touching the
/// new one.
pub proof fn old_leases_leave_new_bindings(c: CoordinatorView, ticket: Ticket, now: u64)
    requires
        c.knows(ticket),
        !c.leased(ticket),
    ensures
        c.released(ticket, now) == c,
        c.release_announcement(ticket) is None,
        !c.can_rebind(ticket),
{
}

/// Whatever is done about one session leaves every other as it is.
pub proof fn sessions_do_not_interfere(
    c: CoordinatorView,
    ticket: Ticket,
    target: AffinityTarget,
    revision: AffinityRevision,
    now: u64,
    other: Seq<char>,
)
    requires
        other != ticket.session_id,
    ensures
        c.replicated(ticket.session_id, target, revision, now).0.entries.get(other)
            == c.entries.get(other),
        c.normalized(ticket.session_id, now).entries.get(other) == c.entries.get(other),
        c.committed(ticket, target, now).entries.get(other) == c.entries.get(other),
        c.abandoned(ticket, now).entries.get(other) == c.entries.get(other),
        c.released(ticket, now).entries.get(other) == c.entries.get(other),
        c.rebound(ticket, target).entries.get(other) == c.entries.get(other),
        c.invalidated(ticket, target, now).entries.get(other) == c.entries.get(other),
{
}

/// Neither another request nor the end of one moves a session elsewhere. Only a
/// lease that binds it anew or an announcement of another router does.
pub proof fn bindings_do_not_drift(
    c: CoordinatorView,
    ticket: Ticket,
    now: u64,
    later: u64,
)
    requires
        c.leased(ticket),
        c.entries[ticket.session_id].leases() < usize::MAX,
        c.acquired(ticket.session_id, now).1 is Bound,
    ensures
        c.acquired(ticket.session_id, now).0.binding(ticket.session_id, now) == c.binding(
            ticket.session_id,
            now,
        ),
        c.entries[ticket.session_id].leases() > 1 ==> c.released(ticket, now).binding(
            ticket.session_id,
            later,
        ) == c.binding(ticket.session_id, later),
{
}

/// A request may settle on a worker just if that is what it asked for and its
/// choice is still under way. It learns first that it asked for another worker,
/// then that its session is gone, and else that somebody else has taken over.
pub proof fn only_the_choosing_request_settles(
    c: CoordinatorView,
    ticket: Ticket,
    target: AffinityTarget,
    requested: Option<AffinityTarget>,
)
    ensures
        ({
            let known = c.entries.contains_key(ticket.session_id);
            let entry = c.entries[ticket.session_id];
            let asked = requested is None || (requested->0.worker_id == target.worker_id && (
            requested->0.dp_rank is None || requested->0.dp_rank == target.dp_rank));
            let chooses = known && entry is Initializing && entry->Initializing_revision
                == ticket.revision && entry->Initializing_generation == ticket.generation;
            let error = c.commit_error(ticket, target, requested);
            &&& error is None <==> asked && chooses
            &&& asked && !known ==> error == Some(AffinityError::InitializationCancelled)
            &&& asked && known && !chooses ==> error == Some(AffinityError::InitializationChanged)
            &&& !asked ==> error == coordinator::target_conflict(target, requested)
        }),
{
}

/// A request that settles on a worker binds its session to it, uses the binding
/// itself, and gives it a revision of this router's own. Only where an announcement
/// without a number still stands the session goes where that says.
pub proof fn settling_binds_the_session(
    c: CoordinatorView,
    ticket: Ticket,
    target: AffinityTarget,
    now: u64,
)
    requires
        c.entries.contains_key(ticket.session_id),
        c.entries[ticket.session_id] is Initializing,
        now + c.ttl <= u64::MAX,
    ensures
        ({
            let pending = c.entries[ticket.session_id]->pending_replica;
            let fenced = pending is Some && pending->0.legacy_fence is Some && now
                < pending->0.legacy_fence->0.deadline;
            let after = c.committed(ticket, target, now);
            let entry = after.entries[ticket.session_id];
            &&& after.entry_count == c.entry_count
            &&& entry is Bound
            &&& entry->active_leases == 1
            &&& entry->Bound_generation == ticket.generation
            &&& entry->idle_deadline == now + c.ttl
            &&& !fenced ==> entry->target == target && entry->legacy_fence is None
                && entry->Bound_revision.router_id == c.router_id && (c.last_sequence < u64::MAX
                ==> entry->Bound_revision.sequence == c.last_sequence + 1)
            &&& fenced ==> entry->target == pending->0.target && entry->legacy_fence
                == pending->0.legacy_fence && entry->Bound_revision == pending->0.revision
            &&& c.last_sequence < u64::MAX ==> after.last_sequence == c.last_sequence + 1
            &&& c.settled(ticket, target, now).revision == entry->Bound_revision
        }),
{
}

/// A request that gives up choosing leaves no trace, unless another router has
/// bound the session meanwhile: then it is bound where that router says, and
/// nobody uses it. A request that does not choose changes nothing.
pub proof fn giving_up_leaves_announcements(c: CoordinatorView, ticket: Ticket, now: u64)
    requires
        now + c.ttl <= u64::MAX,
    ensures
        ({
            let known = c.entries.contains_key(ticket.session_id);
            let entry = c.entries[ticket.session_id];
            let chooses = known && entry is Initializing && entry->Initializing_revision
                == ticket.revision && entry->Initializing_generation == ticket.generation;
            let pending = entry->pending_replica;
            let after = c.abandoned(ticket, now);
            &&& !chooses ==> after == c
            &&& chooses && pending is None ==> !after.entries.contains_key(ticket.session_id)
                && after.entry_count == (c.entry_count - 1) as nat
            &&& chooses && pending is Some ==> {
                let then = after.entries[ticket.session_id];
                let fence = pending->0.legacy_fence;
                &&& after.entry_count == c.entry_count
                &&& then is Bound
                &&& then->active_leases == 0
                &&& then->idle_deadline == now + c.ttl
                &&& then->Bound_generation == ticket.generation
                &&& then->Bound_revision == pending->0.revision
                &&& fence is None || now < fence->0.deadline ==> then->target
                    == pending->0.target && then->legacy_fence == fence
                &&& fence is Some && now >= fence->0.deadline ==> then->legacy_fence is None
                &&& fence is Some && now >= fence->0.deadline
                    && fence->0.pending_versioned_target is Some ==> then->target
                    == fence->0.pending_versioned_target->0
                &&& fence is Some && now >= fence->0.deadline
                    && fence->0.pending_versioned_target is None ==> then->target
                    == pending->0.target
            }
            &&& after.last_sequence == c.last_sequence
        }),
{
}

/// A lease that ends is one less on its binding, and the binding's time starts
/// again. Nothing else about it changes. A lease of another binding, or of one
/// that nobody uses, changes nothing.
pub proof fn ending_a_lease_starts_the_idle_time(c: CoordinatorView, ticket: Ticket, now: u64)
    requires
        now + c.ttl <= u64::MAX,
    ensures
        ({
            let entry = c.entries[ticket.session_id];
            let used = c.entries.contains_key(ticket.session_id) && entry is Bound
                && entry->Bound_generation == ticket.generation && entry->active_leases > 0;
            let after = c.released(ticket, now);
            let then = after.entries[ticket.session_id];
            &&& !used ==> after == c
            &&& used ==> {
                &&& after.entry_count == c.entry_count
                &&& after.entries.contains_key(ticket.session_id)
                &&& then is Bound
                &&& then->active_leases == entry->active_leases - 1
                &&& then->idle_deadline == now + c.ttl
                &&& then->target == entry->target
                &&& then->Bound_revision == entry->Bound_revision
                &&& then->Bound_generation == entry->Bound_generation
                &&& then->legacy_fence == entry->legacy_fence
                &&& after.last_sequence == c.last_sequence
            }
        }),
{
}

/// What is announced of a session is where it is bound, with the revision of
/// that binding. Nothing is announced where announcements are off, while the
/// session is not bound, while the binding has no number, and while a fence
/// stands. The end of a lease announces only if it ends one.
pub proof fn announcements_tell_the_binding(c: CoordinatorView, ticket: Ticket)
    ensures
        ({
            let entry = c.entries[ticket.session_id];
            let held = c.entries.contains_key(ticket.session_id) && entry is Bound
                && entry->Bound_generation == ticket.generation;
            let told = c.replica_enabled && entry is Bound && entry->Bound_revision.sequence > 0
                && entry->legacy_fence is None;
            let update = UpdateView {
                session_id: ticket.session_id,
                target: entry->target,
                revision: entry->Bound_revision,
            };
            &&& told ==> c.announcement(ticket.session_id) == Some(update)
            &&& !told ==> c.announcement(ticket.session_id) is None
            &&& held && told ==> c.published(ticket) == Some(update)
            &&& !(held && told) ==> c.published(ticket) is None
            &&& held && told && entry->active_leases > 0 ==> c.release_announcement(ticket)
                == Some(update)
            &&& !(held && told && entry->active_leases > 0) ==> c.release_announcement(ticket)
                is None
        }),
{
}

/// A lease may bind its session anew just if the session is still bound as the
/// lease knows it and no fence stands. The session then goes to the new target,
/// under a revision of this router's own, and whoever uses it still does.
pub proof fn binding_anew_moves_the_session(
    c: CoordinatorView,
    ticket: Ticket,
    target: AffinityTarget,
)
    ensures
        ({
            let entry = c.entries[ticket.session_id];
            let after = c.rebound(ticket, target);
            let then = after.entries[ticket.session_id];
            &&& c.can_rebind(ticket) <==> c.entries.contains_key(ticket.session_id) && entry
                is Bound && entry->Bound_generation == ticket.generation && entry->Bound_revision
                == ticket.revision && entry->legacy_fence is None
            &&& c.can_rebind(ticket) ==> {
                &&& after.entry_count == c.entry_count
                &&& then is Bound
                &&& then->target == target
                &&& then->active_leases == entry->active_leases
                &&& then->idle_deadline == entry->idle_deadline
                &&& then->Bound_generation == entry->Bound_generation
                &&& then->legacy_fence is None
                &&& then->Bound_revision.router_id == c.router_id
                &&& c.last_sequence < u64::MAX ==> then->Bound_revision.sequence
                    == c.last_sequence + 1 && after.last_sequence == c.last_sequence + 1
            }
        }),
{
}

/// A lease that finds its target wanting makes the session forget it, if the
/// session is still bound just so. Otherwise the lease only ends.
pub proof fn failed_targets_are_forgotten(
    c: CoordinatorView,
    ticket: Ticket,
    expected: AffinityTarget,
    now: u64,
)
    ensures
        ({
            let entry = c.entries[ticket.session_id];
            let same = c.entries.contains_key(ticket.session_id) && entry is Bound
                && entry->target == expected && entry->Bound_revision == ticket.revision
                && entry->Bound_generation == ticket.generation;
            let after = c.invalidated(ticket, expected, now);
            &&& c.is_unchanged(ticket, expected) <==> same
            &&& same ==> !after.entries.contains_key(ticket.session_id) && after.entry_count == (
            c.entry_count - 1) as nat
            &&& !same ==> after == c.released(ticket, now)
        }),
{
}

} // verus!
