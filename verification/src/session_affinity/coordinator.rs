//! The sessions of one router.

use crate::session_affinity::entries;
use crate::session_affinity::entries::{
    count_entries, get_entry, new_entries, put_entry, remove_entry, retain_unexpired,
    AffinityEntry,
};
use crate::session_affinity::lifecycle::{AffinityAcquire, AffinityInitialization, AffinityLease};
use crate::session_affinity::state::{
    apply_replica_binding, AffinityRevision, AffinityTarget, LegacyFence, ReplicaApplyOutcome,
    ReplicaBinding,
};
use vstd::prelude::*;

verus! {

pub const MAX_SESSION_AFFINITY_TTL_SECS: u64 = 31_536_000;

pub const MAX_SESSION_AFFINITY_ENTRIES: usize = 65_536;

pub const MAX_SESSION_AFFINITY_ID_BYTES: usize = 256;

/// The shortest time that a binding is kept, in nanoseconds.
pub const MIN_TTL: u64 = 1_000_000_000;

/// The longest time that a binding is kept, in nanoseconds.
pub const MAX_TTL: u64 = 31_536_000_000_000_000;

/// How often idle bindings are looked for at the longest, in nanoseconds.
pub const MAX_REAP_PERIOD: u64 = 30_000_000_000;

#[derive(Clone, Copy, Debug, PartialEq, Eq, Structural)]
pub enum AffinityError {
    TtlOutOfRange,
    SessionIdTooLong { max: usize },
    EntryLimitReached,
    ReplicaSyncAlreadyEnabled,
    DpRankWithoutWorker,
    BoundToOtherWorker { bound: u64, requested: u64 },
    BoundToOtherRank { bound_rank: u32, requested_rank: u32 },
    BoundWithoutRank { requested_rank: u32 },
    InitializationCancelled,
    InitializationChanged,
}

/// How a caller is told of an error.
#[derive(Clone, Copy, Debug, PartialEq, Eq, Structural)]
pub enum AffinityErrorKind {
    InvalidArgument,
    ResourceExhausted,
    Other,
}

impl AffinityError {
    pub fn kind(&self) -> (r: AffinityErrorKind)
        ensures
            r == match *self {
                AffinityError::EntryLimitReached => AffinityErrorKind::ResourceExhausted,
                AffinityError::ReplicaSyncAlreadyEnabled => AffinityErrorKind::Other,
                _ => AffinityErrorKind::InvalidArgument,
            },
    {
        match self {
            AffinityError::EntryLimitReached => AffinityErrorKind::ResourceExhausted,
            AffinityError::ReplicaSyncAlreadyEnabled => AffinityErrorKind::Other,
            _ => AffinityErrorKind::InvalidArgument,
        }
    }
}

/// Where a request is to go, and whether it must.
#[derive(Clone, Copy, Debug, PartialEq, Eq, Structural)]
pub struct AffinityRoutingBinding {
    pub target: AffinityTarget,
    pub hard_constraint: bool,
}

/// A binding to announce to other routers.
#[derive(Debug)]
pub struct SessionAffinityUpdate {
    pub session_id: String,
    pub target: AffinityTarget,
    pub revision: AffinityRevision,
}

#[verifier::ext_equal]
pub struct UpdateView {
    pub session_id: Seq<char>,
    pub target: AffinityTarget,
    pub revision: AffinityRevision,
}

pub open spec fn update_view(update: Option<SessionAffinityUpdate>) -> Option<UpdateView> {
    match update {
        Some(update) => Some(
            UpdateView {
                session_id: update.session_id@,
                target: update.target,
                revision: update.revision,
            },
        ),
        None => None,
    }
}

pub struct AffinityCoordinator {
    entries: dashmap::DashMap<String, AffinityEntry, std::hash::RandomState>,
    ttl: u64,
    max_entries: usize,
    max_session_id_bytes: usize,
    entry_count: usize,
    next_revision: u64,
    next_generation: u64,
    router_id: u64,
    replica_enabled: bool,
}

#[verifier::ext_equal]
pub struct CoordinatorView {
    pub entries: Map<Seq<char>, AffinityEntry>,
    pub ttl: u64,
    pub max_entries: nat,
    pub max_session_id_bytes: nat,
    pub entry_count: nat,
    /// The sequence of the last revision that was given out or heard of.
    pub last_sequence: u64,
    pub next_generation: u64,
    pub router_id: u64,
    /// Whether bindings are announced to other routers.
    pub replica_enabled: bool,
}

impl View for AffinityCoordinator {
    type V = CoordinatorView;

    closed spec fn view(&self) -> CoordinatorView {
        CoordinatorView {
            entries: entries::sessions(self.entries),
            ttl: self.ttl,
            max_entries: self.max_entries as nat,
            max_session_id_bytes: self.max_session_id_bytes as nat,
            entry_count: self.entry_count as nat,
            last_sequence: self.next_revision,
            next_generation: self.next_generation,
            router_id: self.router_id,
            replica_enabled: self.replica_enabled,
        }
    }
}

pub open spec fn saturated(sequence: int) -> u64 {
    if sequence > u64::MAX {
        u64::MAX
    } else {
        sequence as u64
    }
}

pub open spec fn wrapped(generation: int) -> u64 {
    if generation > u64::MAX {
        0
    } else {
        generation as u64
    }
}

/// What an attempt to acquire a session comes to.
pub enum AcquireOutcome {
    TooLong,
    Full,
    /// Another request is choosing the worker.
    Wait,
    /// This request chooses the worker.
    Initialize { revision: AffinityRevision, generation: u64 },
    Bound {
        target: AffinityTarget,
        hard_constraint: bool,
        revision: AffinityRevision,
        generation: u64,
    },
}

impl CoordinatorView {
    /// The entries are counted right and there are not too many. No entry has a
    /// revision beyond the last one that was given out or heard of.
    pub open spec fn wf(self) -> bool {
        &&& self.entries.dom().finite()
        &&& self.entry_count == self.entries.len()
        &&& self.entry_count <= self.max_entries
        &&& MIN_TTL <= self.ttl <= MAX_TTL
        &&& forall|session_id: Seq<char>| #[trigger]
            self.entries.contains_key(session_id) ==> self.entries[session_id].within(
                self.last_sequence,
            )
    }

    /// Whether a session id is longer than allowed, in bytes.
    pub open spec fn too_long(self, session_id: Seq<char>) -> bool {
        vstd::utf8::encode_utf8(session_id).len() > self.max_session_id_bytes
    }

    /// When a binding that is idle from `now` on expires.
    pub open spec fn deadline(self, now: u64) -> u64 {
        (now + self.ttl) as u64
    }

    /// The revision that is given out next.
    pub open spec fn revision(self) -> AffinityRevision {
        AffinityRevision {
            sequence: saturated(self.last_sequence + 1),
            router_id: self.router_id,
        }
    }

    /// A revision has been given out.
    pub open spec fn revised(self) -> Self {
        CoordinatorView { last_sequence: saturated(self.last_sequence + 1), ..self }
    }

    /// A revision of another router was heard of.
    pub open spec fn observed(self, revision: AffinityRevision) -> Self {
        CoordinatorView {
            last_sequence: if revision.sequence > self.last_sequence {
                revision.sequence
            } else {
                self.last_sequence
            },
            ..self
        }
    }

    /// A generation has been given out.
    pub open spec fn generated(self) -> Self {
        CoordinatorView { next_generation: wrapped(self.next_generation + 1), ..self }
    }

    /// The entry of a known session is set.
    pub open spec fn with(self, session_id: Seq<char>, entry: AffinityEntry) -> Self {
        CoordinatorView { entries: self.entries.insert(session_id, entry), ..self }
    }

    /// A session becomes known.
    pub open spec fn with_new(self, session_id: Seq<char>, entry: AffinityEntry) -> Self {
        CoordinatorView { entry_count: self.entry_count + 1, ..self }.with(session_id, entry)
    }

    /// A known session is forgotten.
    pub open spec fn without(self, session_id: Seq<char>) -> Self {
        CoordinatorView {
            entries: self.entries.remove(session_id),
            entry_count: (self.entry_count - 1) as nat,
            ..self
        }
    }

    /// The entry that a request leaves which is about to choose the worker.
    pub open spec fn initializing(self) -> AffinityEntry {
        AffinityEntry::Initializing {
            revision: self.revision(),
            generation: self.next_generation,
            pending_replica: None,
        }
    }

    /// How acquiring a session changes the coordinator, and what it comes to.
    pub open spec fn acquired(self, session_id: Seq<char>, now: u64) -> (Self, AcquireOutcome) {
        let chosen = AcquireOutcome::Initialize {
            revision: self.revision(),
            generation: self.next_generation,
        };
        if self.too_long(session_id) {
            (self, AcquireOutcome::TooLong)
        } else if !self.entries.contains_key(session_id) {
            if self.entry_count >= self.max_entries {
                (self, AcquireOutcome::Full)
            } else {
                (
                    self.revised().generated().with_new(session_id, self.initializing()),
                    chosen,
                )
            }
        } else {
            match self.entries[session_id].at(now) {
                AffinityEntry::Initializing { .. } => (self, AcquireOutcome::Wait),
                AffinityEntry::Bound {
                    target,
                    revision,
                    generation,
                    active_leases,
                    idle_deadline,
                    legacy_fence,
                } => if active_leases == 0 && idle_deadline <= now {
                    (self.revised().generated().with(session_id, self.initializing()), chosen)
                } else {
                    (
                        self.with(
                            session_id,
                            AffinityEntry::Bound {
                                target,
                                revision,
                                generation,
                                active_leases: (active_leases + 1) as usize,
                                idle_deadline,
                                legacy_fence,
                            },
                        ),
                        AcquireOutcome::Bound {
                            target,
                            hard_constraint: legacy_fence is Some,
                            revision,
                            generation,
                        },
                    )
                },
            }
        }
    }

    /// Where a session is bound at `now`, if it is.
    pub open spec fn binding(self, session_id: Seq<char>, now: u64) -> Option<
        AffinityRoutingBinding,
    > {
        if !self.entries.contains_key(session_id) || self.entries[session_id].expired(now) {
            None
        } else {
            match self.entries[session_id].at(now) {
                AffinityEntry::Initializing { .. } => None,
                AffinityEntry::Bound { target, legacy_fence, .. } => Some(
                    AffinityRoutingBinding { target, hard_constraint: legacy_fence is Some },
                ),
            }
        }
    }

    /// A session's fence is taken down if it has passed.
    pub open spec fn normalized(self, session_id: Seq<char>, now: u64) -> Self {
        if self.entries.contains_key(session_id) {
            self.with(session_id, self.entries[session_id].at(now))
        } else {
            self
        }
    }

    /// The entries that have expired are gone.
    pub open spec fn reaped(self, now: u64) -> Self {
        let kept = entries::unexpired(self.entries, now);
        CoordinatorView { entries: kept, entry_count: kept.len(), ..self }
    }

    /// How an update from another router changes the coordinator.
    pub open spec fn replicated(
        self,
        session_id: Seq<char>,
        target: AffinityTarget,
        revision: AffinityRevision,
        now: u64,
    ) -> (Self, ReplicaApplyOutcome) {
        let deadline = self.deadline(now);
        let first = ReplicaBinding::announced(target, revision, deadline);
        let base = self.observed(revision);
        if self.too_long(session_id) {
            (self, ReplicaApplyOutcome::RejectedSessionId)
        } else if !self.entries.contains_key(session_id) {
            if self.entry_count >= self.max_entries {
                (base, ReplicaApplyOutcome::RejectedCapacity)
            } else {
                (
                    base.generated().with_new(
                        session_id,
                        AffinityEntry::Bound {
                            target,
                            revision,
                            generation: self.next_generation,
                            active_leases: 0,
                            idle_deadline: deadline,
                            legacy_fence: first.legacy_fence,
                        },
                    ),
                    ReplicaApplyOutcome::Inserted,
                )
            }
        } else {
            match self.entries[session_id] {
                AffinityEntry::Initializing { revision: own, generation, pending_replica } => {
                    let (binding, outcome) = match pending_replica {
                        Some(binding) => binding.at(now).updated(target, revision, deadline),
                        None => (first, ReplicaApplyOutcome::Inserted),
                    };
                    (
                        base.with(
                            session_id,
                            AffinityEntry::Initializing {
                                revision: own,
                                generation,
                                pending_replica: Some(binding),
                            },
                        ),
                        if outcome == ReplicaApplyOutcome::IgnoredStale {
                            outcome
                        } else {
                            ReplicaApplyOutcome::DeferredInitializing
                        },
                    )
                },
                AffinityEntry::Bound {
                    target: own_target,
                    revision: own,
                    generation,
                    active_leases,
                    idle_deadline,
                    legacy_fence,
                } => {
                    let current = ReplicaBinding {
                        target: own_target,
                        revision: own,
                        legacy_fence,
                    };
                    let (binding, outcome) = current.at(now).updated(target, revision, deadline);
                    if outcome == ReplicaApplyOutcome::IgnoredStale {
                        (base, outcome)
                    } else {
                        (
                            base.with(
                                session_id,
                                AffinityEntry::Bound {
                                    target: binding.target,
                                    revision: binding.revision,
                                    generation,
                                    active_leases,
                                    idle_deadline: if active_leases == 0 {
                                        deadline
                                    } else {
                                        idle_deadline
                                    },
                                    legacy_fence: binding.legacy_fence,
                                },
                            ),
                            outcome,
                        )
                    }
                },
            }
        }
    }
}

/// What acquiring a session comes to.
pub enum AcquireStep {
    Acquired(AffinityAcquire),
    /// Another request is choosing the worker. Try again once it is done.
    Wait,
}

/// Whether a result of acquiring stands for an outcome.
pub open spec fn acquire_result(
    r: Result<AcquireStep, AffinityError>,
    session_id: Seq<char>,
    requested_target: Option<AffinityTarget>,
    max_session_id_bytes: nat,
    outcome: AcquireOutcome,
) -> bool {
    match outcome {
        AcquireOutcome::TooLong => r is Err && r->Err_0 is SessionIdTooLong && r->Err_0->max
            == max_session_id_bytes,
        AcquireOutcome::Full => r is Err && r->Err_0 == AffinityError::EntryLimitReached,
        AcquireOutcome::Wait => r is Ok && r->Ok_0 is Wait,
        AcquireOutcome::Initialize { revision, generation } => match r {
            Ok(AcquireStep::Acquired(AffinityAcquire::Initialize(initialization))) => {
                &&& initialization.session_id@ == session_id
                &&& initialization.revision == revision
                &&& initialization.generation == generation
                &&& initialization.requested_target == requested_target
            },
            _ => false,
        },
        AcquireOutcome::Bound { target, hard_constraint, revision, generation } => match r {
            Ok(
                AcquireStep::Acquired(
                    AffinityAcquire::Bound { target: bound, hard_constraint: hard, lease },
                ),
            ) => {
                &&& bound == target
                &&& hard == hard_constraint
                &&& lease.session_id@ == session_id
                &&& lease.revision == revision
                &&& lease.generation == generation
                &&& lease.active
            },
            _ => false,
        },
    }
}

impl AffinityCoordinator {
    /// A coordinator with the usual limits. `ttl` is in nanoseconds, and
    /// `timestamp` the sequence that its revisions start after.
    pub fn new(ttl: u128, timestamp: u64) -> (r: Result<Self, AffinityError>)
        ensures
            MIN_TTL <= ttl <= MAX_TTL ==> r is Ok && r->Ok_0@.wf() && r->Ok_0@ == (
            CoordinatorView {
                entries: Map::empty(),
                ttl: ttl as u64,
                max_entries: MAX_SESSION_AFFINITY_ENTRIES as nat,
                max_session_id_bytes: MAX_SESSION_AFFINITY_ID_BYTES as nat,
                entry_count: 0,
                last_sequence: timestamp,
                next_generation: 1,
                router_id: 0,
                replica_enabled: false,
            }),
            !(MIN_TTL <= ttl <= MAX_TTL) ==> r is Err && r->Err_0 == AffinityError::TtlOutOfRange,
    {
        Self::new_with_limits(
            ttl,
            timestamp,
            MAX_SESSION_AFFINITY_ENTRIES,
            MAX_SESSION_AFFINITY_ID_BYTES,
        )
    }

    pub fn new_with_limits(
        ttl: u128,
        timestamp: u64,
        max_entries: usize,
        max_session_id_bytes: usize,
    ) -> (r: Result<Self, AffinityError>)
        ensures
            MIN_TTL <= ttl <= MAX_TTL ==> r is Ok && r->Ok_0@.wf() && r->Ok_0@ == (
            CoordinatorView {
                entries: Map::empty(),
                ttl: ttl as u64,
                max_entries: max_entries as nat,
                max_session_id_bytes: max_session_id_bytes as nat,
                entry_count: 0,
                last_sequence: timestamp,
                next_generation: 1,
                router_id: 0,
                replica_enabled: false,
            }),
            !(MIN_TTL <= ttl <= MAX_TTL) ==> r is Err && r->Err_0 == AffinityError::TtlOutOfRange,
    {
        if ttl < MIN_TTL as u128 || ttl > MAX_TTL as u128 {
            return Err(AffinityError::TtlOutOfRange);
        }
        Ok(
            AffinityCoordinator {
                entries: new_entries(),
                ttl: ttl as u64,
                max_entries,
                max_session_id_bytes,
                entry_count: 0,
                next_revision: timestamp,
                next_generation: 1,
                router_id: 0,
                replica_enabled: false,
            },
        )
    }

    /// How often to look for idle bindings, in nanoseconds.
    pub fn reap_period(&self) -> (r: u64)
        ensures
            r == if self@.ttl < MAX_REAP_PERIOD {
                self@.ttl
            } else {
                MAX_REAP_PERIOD
            },
    {
        if self.ttl < MAX_REAP_PERIOD {
            self.ttl
        } else {
            MAX_REAP_PERIOD
        }
    }

    /// Forgets the bindings that have been idle for too long.
    pub fn reap(&mut self, now: u64)
        requires
            old(self)@.wf(),
        ensures
            final(self)@.wf(),
            final(self)@ == old(self)@.reaped(now),
    {
        let before: usize = count_entries(&self.entries);
        retain_unexpired(&mut self.entries, now);
        proof {
            let kept = entries::unexpired(old(self)@.entries, now);
            assert(kept.dom().subset_of(old(self)@.entries.dom()));
            vstd::set_lib::lemma_len_subset(kept.dom(), old(self)@.entries.dom());
        }
        let after: usize = count_entries(&self.entries);
        let removed: usize = before - after;
        self.entry_count = self.entry_count - removed;
    }

    /// Starts announcing bindings to other routers, under `router_id`.
    pub fn enable_replica_sync(&mut self, router_id: u64) -> (r: Result<(), AffinityError>)
        ensures
            final(self)@ == (CoordinatorView { router_id, replica_enabled: true, ..old(self)@ }),
            r is Ok <==> !old(self)@.replica_enabled,
            r is Err ==> r->Err_0 == AffinityError::ReplicaSyncAlreadyEnabled,
    {
        self.router_id = router_id;
        if self.replica_enabled {
            return Err(AffinityError::ReplicaSyncAlreadyEnabled);
        }
        self.replica_enabled = true;
        Ok(())
    }

    pub fn entry_count(&self) -> (r: usize)
        ensures
            r == self@.entry_count,
    {
        self.entry_count
    }

    /// How many requests use the binding of a session.
    pub fn active_leases(&self, session_id: &str) -> (r: usize)
        ensures
            r == match self@.entries.get(session_id@) {
                Some(entry) => entry.leases(),
                None => 0,
            },
    {
        match self.entry(session_id) {
            Some(AffinityEntry::Bound { active_leases, .. }) => active_leases,
            _ => 0,
        }
    }

    fn validate_session_id(&self, session_id: &str) -> (r: Result<(), AffinityError>)
        ensures
            r is Err <==> self@.too_long(session_id@),
            r is Err ==> r->Err_0 is SessionIdTooLong && r->Err_0->max
                == self@.max_session_id_bytes,
    {
        if session_id.as_bytes().len() > self.max_session_id_bytes {
            return Err(AffinityError::SessionIdTooLong { max: self.max_session_id_bytes });
        }
        Ok(())
    }

    pub(crate) fn next_revision(&mut self) -> (r: AffinityRevision)
        ensures
            r == old(self)@.revision(),
            final(self)@ == old(self)@.revised(),
    {
        let sequence: u64 = self.next_revision.saturating_add(1);
        self.next_revision = sequence;
        AffinityRevision { sequence, router_id: self.router_id }
    }

    fn observe_revision(&mut self, revision: AffinityRevision)
        ensures
            final(self)@ == old(self)@.observed(revision),
    {
        if revision.sequence > self.next_revision {
            self.next_revision = revision.sequence;
        }
    }

    fn next_generation(&mut self) -> (r: u64)
        ensures
            r == old(self)@.next_generation,
            final(self)@ == old(self)@.generated(),
    {
        let generation: u64 = self.next_generation;
        self.next_generation = generation.wrapping_add(1);
        generation
    }

    /// Takes one of the places for entries, if there is one.
    fn reserve_entry(&mut self) -> (r: bool)
        ensures
            r == (old(self)@.entry_count < old(self)@.max_entries),
            final(self)@ == (CoordinatorView {
                entry_count: if r {
                    old(self)@.entry_count + 1
                } else {
                    old(self)@.entry_count
                },
                ..old(self)@
            }),
    {
        if self.entry_count < self.max_entries {
            self.entry_count = self.entry_count + 1;
            true
        } else {
            false
        }
    }

    pub(crate) fn entry(&self, session_id: &str) -> (r: Option<AffinityEntry>)
        ensures
            r == self@.entries.get(session_id@),
    {
        get_entry(&self.entries, session_id)
    }

    /// Sets the entry of a session that has one.
    pub(crate) fn set_entry(&mut self, session_id: &str, entry: AffinityEntry)
        requires
            old(self)@.wf(),
            old(self)@.entries.contains_key(session_id@),
            entry.within(old(self)@.last_sequence),
        ensures
            final(self)@.wf(),
            final(self)@ == old(self)@.with(session_id@, entry),
    {
        put_entry(&mut self.entries, session_id.to_owned(), entry);
        proof {
            assert(old(self)@.entries.dom().insert(session_id@) =~= old(self)@.entries.dom());
        }
    }

    /// Forgets a session that has an entry.
    pub(crate) fn drop_entry(&mut self, session_id: &str)
        requires
            old(self)@.wf(),
            old(self)@.entries.contains_key(session_id@),
        ensures
            final(self)@.wf(),
            final(self)@ == old(self)@.without(session_id@),
    {
        proof {
            assert(old(self)@.entries.dom().contains(session_id@));
            assert(old(self)@.entries.dom().len() > 0) by {
                if old(self)@.entries.dom().len() == 0 {
                    assert(old(self)@.entries.dom() =~= Set::empty());
                }
            }
        }
        remove_entry(&mut self.entries, session_id);
        self.entry_count = self.entry_count - 1;
    }

    /// Acquires a session for a request that may ask for a target of its own.
    pub fn acquire(
        &mut self,
        session_id: &str,
        requested_target: Option<AffinityTarget>,
        now: u64,
    ) -> (r: Result<AcquireStep, AffinityError>)
        requires
            old(self)@.wf(),
            old(self)@.entries.contains_key(session_id@) ==> old(
                self,
            )@.entries[session_id@].leases() < usize::MAX,
        ensures
            final(self)@.wf(),
            final(self)@ == old(self)@.acquired(session_id@, now).0,
            acquire_result(
                r,
                session_id@,
                requested_target,
                old(self)@.max_session_id_bytes,
                old(self)@.acquired(session_id@, now).1,
            ),
    {
        match self.validate_session_id(session_id) {
            Ok(()) => {},
            Err(error) => {
                return Err(error);
            },
        }
        let entry = match self.entry(session_id) {
            None => {
                if !self.reserve_entry() {
                    return Err(AffinityError::EntryLimitReached);
                }
                let initialization = self.initialize(session_id, requested_target);
                proof {
                    assert(old(self)@.entries.dom().insert(session_id@).len() == old(
                        self,
                    )@.entries.len() + 1);
                }
                return Ok(AcquireStep::Acquired(AffinityAcquire::Initialize(initialization)));
            },
            Some(entry) => entry.normalized(now),
        };
        match entry {
            AffinityEntry::Initializing { .. } => Ok(AcquireStep::Wait),
            AffinityEntry::Bound {
                target,
                revision,
                generation,
                active_leases,
                idle_deadline,
                legacy_fence,
            } => {
                if active_leases == 0 && idle_deadline <= now {
                    let initialization = self.initialize(session_id, requested_target);
                    proof {
                        assert(old(self)@.entries.dom().insert(session_id@) =~= old(
                            self,
                        )@.entries.dom());
                    }
                    return Ok(AcquireStep::Acquired(AffinityAcquire::Initialize(initialization)));
                }
                self.set_entry(
                    session_id,
                    AffinityEntry::Bound {
                        target,
                        revision,
                        generation,
                        active_leases: active_leases + 1,
                        idle_deadline,
                        legacy_fence,
                    },
                );
                let lease = AffinityLease {
                    session_id: session_id.to_owned(),
                    revision,
                    generation,
                    active: true,
                };
                Ok(
                    AcquireStep::Acquired(
                        AffinityAcquire::Bound {
                            target,
                            hard_constraint: legacy_fence.is_some(),
                            lease,
                        },
                    ),
                )
            },
        }
    }

    /// Leaves the choice of the worker to a request.
    fn initialize(&mut self, session_id: &str, requested_target: Option<AffinityTarget>) -> (r:
        AffinityInitialization)
        ensures
            final(self)@ == old(self)@.revised().generated().with(
                session_id@,
                old(self)@.initializing(),
            ),
            r.session_id@ == session_id@,
            r.revision == old(self)@.revision(),
            r.generation == old(self)@.next_generation,
            r.requested_target == requested_target,
    {
        let revision = self.next_revision();
        let generation: u64 = self.next_generation();
        put_entry(
            &mut self.entries,
            session_id.to_owned(),
            AffinityEntry::Initializing { revision, generation, pending_replica: None },
        );
        AffinityInitialization {
            session_id: session_id.to_owned(),
            revision,
            generation,
            requested_target,
        }
    }

    /// The worker that a session is bound to, if it is.
    pub fn query_target(&mut self, session_id: &str, now: u64) -> (r: Result<
        Option<AffinityTarget>,
        AffinityError,
    >)
        requires
            old(self)@.wf(),
        ensures
            final(self)@.wf(),
            r is Err <==> old(self)@.too_long(session_id@),
            r is Err ==> r->Err_0 is SessionIdTooLong && r->Err_0->max == old(
                self,
            )@.max_session_id_bytes && final(self)@ == old(self)@,
            r is Ok ==> final(self)@ == old(self)@.normalized(session_id@, now) && r->Ok_0
                == match old(self)@.binding(session_id@, now) {
                Some(binding) => Some(binding.target),
                None => None,
            },
    {
        match self.query_binding(session_id, now) {
            Err(error) => Err(error),
            Ok(Some(binding)) => Ok(Some(binding.target)),
            Ok(None) => Ok(None),
        }
    }

    /// Where a session is bound, if it is.
    pub fn query_binding(&mut self, session_id: &str, now: u64) -> (r: Result<
        Option<AffinityRoutingBinding>,
        AffinityError,
    >)
        requires
            old(self)@.wf(),
        ensures
            final(self)@.wf(),
            r is Err <==> old(self)@.too_long(session_id@),
            r is Err ==> r->Err_0 is SessionIdTooLong && r->Err_0->max == old(
                self,
            )@.max_session_id_bytes && final(self)@ == old(self)@,
            r is Ok ==> final(self)@ == old(self)@.normalized(session_id@, now) && r->Ok_0 == old(
                self,
            )@.binding(session_id@, now),
    {
        match self.validate_session_id(session_id) {
            Ok(()) => {},
            Err(error) => {
                return Err(error);
            },
        }
        match self.entry(session_id) {
            None => Ok(None),
            Some(entry) => {
                let entry = entry.normalized(now);
                self.set_entry(session_id, entry);
                Ok(routing_binding(&entry, now))
            },
        }
    }

    /// The announcement of a binding, if bindings are announced.
    pub(crate) fn publish_replica_update(
        &self,
        session_id: &str,
        target: AffinityTarget,
        revision: AffinityRevision,
    ) -> (r: Option<SessionAffinityUpdate>)
        ensures
            update_view(r) == if self@.replica_enabled {
                Some(UpdateView { session_id: session_id@, target, revision })
            } else {
                None
            },
    {
        if self.replica_enabled {
            Some(SessionAffinityUpdate { session_id: session_id.to_owned(), target, revision })
        } else {
            None
        }
    }

    pub(crate) fn ttl(&self) -> (r: u64)
        ensures
            r == self@.ttl,
    {
        self.ttl
    }

    /// Applies an announcement from another router.
    pub fn apply_replica_update(
        &mut self,
        session_id: &str,
        target: AffinityTarget,
        revision: AffinityRevision,
        now: u64,
    ) -> (r: ReplicaApplyOutcome)
        requires
            old(self)@.wf(),
            now + MAX_TTL <= u64::MAX,
        ensures
            final(self)@.wf(),
            (final(self)@, r) == old(self)@.replicated(session_id@, target, revision, now),
    {
        if session_id.as_bytes().len() > self.max_session_id_bytes {
            return ReplicaApplyOutcome::RejectedSessionId;
        }
        self.observe_revision(revision);
        let deadline: u64 = now + self.ttl;
        let legacy_fence = if revision.is_legacy() {
            Some(LegacyFence { deadline, pending_versioned_target: None })
        } else {
            None
        };
        match self.entry(session_id) {
            None => {
                if !self.reserve_entry() {
                    return ReplicaApplyOutcome::RejectedCapacity;
                }
                let generation: u64 = self.next_generation();
                put_entry(
                    &mut self.entries,
                    session_id.to_owned(),
                    AffinityEntry::Bound {
                        target,
                        revision,
                        generation,
                        active_leases: 0,
                        idle_deadline: deadline,
                        legacy_fence,
                    },
                );
                proof {
                    assert(old(self)@.entries.dom().insert(session_id@).len() == old(
                        self,
                    )@.entries.len() + 1);
                }
                ReplicaApplyOutcome::Inserted
            },
            Some(AffinityEntry::Initializing { revision: own, generation, pending_replica }) => {
                let mut binding = ReplicaBinding { target, revision, legacy_fence };
                let mut outcome = ReplicaApplyOutcome::Inserted;
                if let Some(pending) = pending_replica {
                    binding = pending;
                    outcome = apply_replica_binding(&mut binding, target, revision, now, self.ttl);
                }
                self.set_entry(
                    session_id,
                    AffinityEntry::Initializing {
                        revision: own,
                        generation,
                        pending_replica: Some(binding),
                    },
                );
                match outcome {
                    ReplicaApplyOutcome::IgnoredStale => outcome,
                    _ => ReplicaApplyOutcome::DeferredInitializing,
                }
            },
            Some(
                AffinityEntry::Bound {
                    target: own_target,
                    revision: own,
                    generation,
                    active_leases,
                    idle_deadline,
                    legacy_fence: own_fence,
                },
            ) => {
                let mut binding = ReplicaBinding {
                    target: own_target,
                    revision: own,
                    legacy_fence: own_fence,
                };
                let outcome = apply_replica_binding(
                    &mut binding,
                    target,
                    revision,
                    now,
                    self.ttl,
                );
                if outcome != ReplicaApplyOutcome::IgnoredStale {
                    self.set_entry(
                        session_id,
                        AffinityEntry::Bound {
                            target: binding.target,
                            revision: binding.revision,
                            generation,
                            active_leases,
                            idle_deadline: if active_leases == 0 {
                                deadline
                            } else {
                                idle_deadline
                            },
                            legacy_fence: binding.legacy_fence,
                        },
                    );
                }
                outcome
            },
        }
    }
}

/// Where an entry binds its session, if it does.
fn routing_binding(entry: &AffinityEntry, now: u64) -> (r: Option<AffinityRoutingBinding>)
    ensures
        r == match *entry {
            AffinityEntry::Initializing { .. } => None,
            AffinityEntry::Bound { target, legacy_fence, .. } => if entry.expired(now) {
                None
            } else {
                Some(AffinityRoutingBinding { target, hard_constraint: legacy_fence is Some })
            },
        },
{
    match entry {
        AffinityEntry::Initializing { .. } => None,
        AffinityEntry::Bound { target, legacy_fence, .. } => {
            if entry.is_expired(now) {
                None
            } else {
                Some(
                    AffinityRoutingBinding {
                        target: *target,
                        hard_constraint: legacy_fence.is_some(),
                    },
                )
            }
        },
    }
}

/// A coordinator, if a time to keep bindings for is configured.
pub fn create_affinity_coordinator(ttl: Option<u128>, timestamp: u64) -> (r: Result<
    Option<AffinityCoordinator>,
    AffinityError,
>)
    ensures
        match ttl {
            None => r is Ok && r->Ok_0 is None,
            Some(ttl) => if MIN_TTL <= ttl <= MAX_TTL {
                &&& r is Ok && r->Ok_0 is Some
                &&& r->Ok_0->0@.wf()
                &&& r->Ok_0->0@ == (CoordinatorView {
                    entries: Map::empty(),
                    ttl: ttl as u64,
                    max_entries: MAX_SESSION_AFFINITY_ENTRIES as nat,
                    max_session_id_bytes: MAX_SESSION_AFFINITY_ID_BYTES as nat,
                    entry_count: 0,
                    last_sequence: timestamp,
                    next_generation: 1,
                    router_id: 0,
                    replica_enabled: false,
                })
            } else {
                r is Err && r->Err_0 == AffinityError::TtlOutOfRange
            },
        },
{
    match ttl {
        None => Ok(None),
        Some(ttl) => match AffinityCoordinator::new(ttl, timestamp) {
            Ok(coordinator) => Ok(Some(coordinator)),
            Err(error) => Err(error),
        },
    }
}

/// The part that a worker plays for a request.
#[derive(Clone, Copy, Debug, PartialEq, Eq, Structural)]
pub enum RequestPhase {
    Prefill,
    Decode,
    Aggregated,
}

/// Where a request asks to be routed.
#[derive(Clone, Copy, Debug, PartialEq, Eq, Structural)]
pub struct RoutingHints {
    pub backend_instance_id: Option<u64>,
    pub prefill_worker_id: Option<u64>,
    pub decode_worker_id: Option<u64>,
    pub dp_rank: Option<u32>,
    pub prefill_dp_rank: Option<u32>,
}

pub open spec fn first_of<T>(a: Option<T>, b: Option<T>) -> Option<T> {
    match a {
        Some(x) => Some(x),
        None => b,
    }
}

/// The worker that hints ask for in a phase.
pub open spec fn hinted_worker(hints: RoutingHints, phase: RequestPhase) -> Option<u64> {
    match phase {
        RequestPhase::Prefill => first_of(hints.prefill_worker_id, hints.backend_instance_id),
        RequestPhase::Decode => first_of(hints.decode_worker_id, hints.backend_instance_id),
        RequestPhase::Aggregated => first_of(hints.decode_worker_id, hints.backend_instance_id),
    }
}

/// The rank that hints ask for in a phase.
pub open spec fn hinted_rank(hints: RoutingHints, phase: RequestPhase) -> Option<u32> {
    match phase {
        RequestPhase::Prefill => first_of(hints.prefill_dp_rank, hints.dp_rank),
        RequestPhase::Decode => hints.dp_rank,
        RequestPhase::Aggregated => hints.dp_rank,
    }
}

/// The target that hints ask for in a phase, if they do.
pub open spec fn requested_target(routing: Option<&RoutingHints>, phase: RequestPhase) -> Result<
    Option<AffinityTarget>,
    AffinityError,
> {
    match routing {
        None => Ok(None),
        Some(hints) => match hinted_worker(*hints, phase) {
            Some(worker_id) => Ok(
                Some(AffinityTarget { worker_id, dp_rank: hinted_rank(*hints, phase) }),
            ),
            None => if hinted_rank(*hints, phase) is Some {
                Err(AffinityError::DpRankWithoutWorker)
            } else {
                Ok(None)
            },
        },
    }
}

/// The target that a request asks for, if it does.
pub fn explicit_target(routing: Option<&RoutingHints>, phase: RequestPhase) -> (r: Result<
    Option<AffinityTarget>,
    AffinityError,
>)
    ensures
        match routing {
            None => r == Ok::<Option<AffinityTarget>, AffinityError>(None),
            Some(hints) => {
                let worker = hinted_worker(*hints, phase);
                let dp_rank = hinted_rank(*hints, phase);
                r == match worker {
                    Some(worker_id) => Ok::<Option<AffinityTarget>, AffinityError>(
                        Some(AffinityTarget { worker_id, dp_rank }),
                    ),
                    None => if dp_rank is Some {
                        Err(AffinityError::DpRankWithoutWorker)
                    } else {
                        Ok(None)
                    },
                }
            },
        },
        r == requested_target(routing, phase),
        routing matches Some(hints) ==> {
            let own = if phase == RequestPhase::Prefill {
                hints.prefill_worker_id
            } else {
                hints.decode_worker_id
            };
            &&& own is Some ==> r is Ok && r->Ok_0 is Some && r->Ok_0->0.worker_id == own->0
            &&& own is None && hints.backend_instance_id is Some ==> r is Ok && r->Ok_0 is Some
                && r->Ok_0->0.worker_id == hints.backend_instance_id->0
        },
{
    let routing = match routing {
        Some(routing) => routing,
        None => {
            return Ok(None);
        },
    };
    let (worker, fallback_rank) = match phase {
        RequestPhase::Prefill => (routing.prefill_worker_id, routing.prefill_dp_rank),
        RequestPhase::Decode | RequestPhase::Aggregated => (routing.decode_worker_id, None),
    };
    let worker_id: Option<u64> = match worker {
        Some(worker_id) => Some(worker_id),
        None => routing.backend_instance_id,
    };
    let dp_rank: Option<u32> = match fallback_rank {
        Some(rank) => Some(rank),
        None => routing.dp_rank,
    };
    match worker_id {
        Some(worker_id) => Ok(Some(AffinityTarget { worker_id, dp_rank })),
        None => {
            if dp_rank.is_some() {
                Err(AffinityError::DpRankWithoutWorker)
            } else {
                Ok(None)
            }
        },
    }
}

/// Why a session bound to `bound` cannot serve a request for `requested`, if
/// it cannot.
pub open spec fn target_conflict(bound: AffinityTarget, requested: Option<AffinityTarget>) -> Option<
    AffinityError,
> {
    match requested {
        None => None,
        Some(requested) => if bound.worker_id != requested.worker_id {
            Some(
                AffinityError::BoundToOtherWorker {
                    bound: bound.worker_id,
                    requested: requested.worker_id,
                },
            )
        } else {
            match (bound.dp_rank, requested.dp_rank) {
                (Some(own), Some(asked)) => if own != asked {
                    Some(AffinityError::BoundToOtherRank { bound_rank: own, requested_rank: asked })
                } else {
                    None
                },
                (None, Some(asked)) => Some(AffinityError::BoundWithoutRank { requested_rank: asked }),
                _ => None,
            }
        },
    }
}

pub fn validate_bound_target(bound: AffinityTarget, requested: Option<AffinityTarget>) -> (r:
    Result<(), AffinityError>)
    ensures
        r == match target_conflict(bound, requested) {
            Some(error) => Err::<(), AffinityError>(error),
            None => Ok(()),
        },
{
    let requested = match requested {
        Some(requested) => requested,
        None => {
            return Ok(());
        },
    };
    if bound.worker_id != requested.worker_id {
        return Err(
            AffinityError::BoundToOtherWorker {
                bound: bound.worker_id,
                requested: requested.worker_id,
            },
        );
    }
    match (bound.dp_rank, requested.dp_rank) {
        (Some(own), Some(asked)) if own != asked => Err(
            AffinityError::BoundToOtherRank { bound_rank: own, requested_rank: asked },
        ),
        (None, Some(asked)) => Err(AffinityError::BoundWithoutRank { requested_rank: asked }),
        _ => Ok(()),
    }
}

/// A revision that is given out comes after every one heard of before, as long
/// as sequences do not run out.
pub proof fn revisions_overtake_observed(c: CoordinatorView, heard: AffinityRevision)
    requires
        c.last_sequence < u64::MAX,
        heard.sequence < u64::MAX,
    ensures
        c.observed(heard).revision().after(heard),
        c.revised().revision().sequence >= c.revision().sequence,
        c.last_sequence < u64::MAX - 1 ==> c.revised().revision().after(c.revision()),
        !c.revision().legacy(),
{
}

/// A revision that is given out comes after every one that is stored, as long
/// as sequences do not run out.
pub proof fn revisions_overtake_stored(c: CoordinatorView, session_id: Seq<char>)
    requires
        c.wf(),
        c.last_sequence < u64::MAX,
        c.entries.contains_key(session_id),
    ensures
        c.revision().after(c.entries[session_id].revision()),
        c.entries[session_id].pending() matches Some(binding) ==> c.revision().after(
            binding.revision,
        ),
{
}

/// A session that is in use is never forgotten for being idle.
pub proof fn leased_sessions_are_kept(c: CoordinatorView, session_id: Seq<char>, now: u64)
    requires
        c.entries.contains_key(session_id),
        c.entries[session_id].leases() > 0,
    ensures
        c.reaped(now).entries.contains_key(session_id),
        c.reaped(now).entries[session_id] == c.entries[session_id],
{
}

/// Acquiring a session changes no other.
pub proof fn acquiring_leaves_others(
    c: CoordinatorView,
    session_id: Seq<char>,
    other: Seq<char>,
    now: u64,
)
    requires
        other != session_id,
    ensures
        c.acquired(session_id, now).0.entries.get(other) == c.entries.get(other),
{
}

/// Reading where a session is bound agrees with acquiring it.
pub proof fn query_agrees_with_acquire(c: CoordinatorView, session_id: Seq<char>, now: u64)
    requires
        !c.too_long(session_id),
    ensures
        match c.acquired(session_id, now).1 {
            AcquireOutcome::Bound { target, hard_constraint, .. } => c.binding(session_id, now)
                == Some(AffinityRoutingBinding { target, hard_constraint }),
            _ => c.binding(session_id, now) is None,
        },
{
}

/// A request goes to the worker that its hints name for its phase: the prefill
/// worker in the prefill phase, the decode worker in the others. Only where they
/// name none for the phase the backend instance counts. The rank that goes with
/// it is the prefill rank in the prefill phase, if there is one, and the common
/// one otherwise.
pub proof fn hints_route_to_the_worker_of_their_phase(hints: RoutingHints, phase: RequestPhase)
    ensures
        ({
            let r = requested_target(Some(&hints), phase);
            let own = if phase == RequestPhase::Prefill {
                hints.prefill_worker_id
            } else {
                hints.decode_worker_id
            };
            &&& own is Some ==> (r matches Ok(Some(target)) && target.worker_id == own->0)
            &&& own is None && hints.backend_instance_id is Some ==> (r matches Ok(Some(target))
                && target.worker_id == hints.backend_instance_id->0)
            &&& r matches Ok(Some(target)) ==> {
                &&& own is Some || hints.backend_instance_id is Some
                &&& phase == RequestPhase::Prefill && hints.prefill_dp_rank is Some
                    ==> target.dp_rank == hints.prefill_dp_rank
                &&& phase == RequestPhase::Prefill && hints.prefill_dp_rank is None
                    ==> target.dp_rank == hints.dp_rank
                &&& phase != RequestPhase::Prefill ==> target.dp_rank == hints.dp_rank
            }
        }),
        requested_target(None, phase) == Ok::<Option<AffinityTarget>, AffinityError>(None),
{
}

/// A request that names a rank has to name a worker for it. One that names
/// neither may go anywhere.
pub proof fn ranks_need_a_worker(hints: RoutingHints, phase: RequestPhase)
    requires
        hints.backend_instance_id is None,
        phase == RequestPhase::Prefill ==> hints.prefill_worker_id is None,
        phase != RequestPhase::Prefill ==> hints.decode_worker_id is None,
    ensures
        ({
            let ranked = hints.dp_rank is Some || (phase == RequestPhase::Prefill
                && hints.prefill_dp_rank is Some);
            &&& ranked ==> requested_target(Some(&hints), phase) == Err::<
                Option<AffinityTarget>,
                AffinityError,
            >(AffinityError::DpRankWithoutWorker)
            &&& !ranked ==> requested_target(Some(&hints), phase) == Ok::<
                Option<AffinityTarget>,
                AffinityError,
            >(None)
        }),
{
}

/// A bound session serves a request just if the request asks for no target, or
/// for the worker that the session is bound to and no other rank on it. A request
/// that it does not serve learns of the first thing that is in the way.
pub proof fn bound_sessions_serve_their_target(
    bound: AffinityTarget,
    requested: Option<AffinityTarget>,
)
    ensures
        target_conflict(bound, requested) is None <==> (requested is None || (
        requested->0.worker_id == bound.worker_id && (requested->0.dp_rank is None
            || requested->0.dp_rank == bound.dp_rank))),
        requested is Some && requested->0.worker_id != bound.worker_id ==> target_conflict(
            bound,
            requested,
        ) == Some(
            AffinityError::BoundToOtherWorker {
                bound: bound.worker_id,
                requested: requested->0.worker_id,
            },
        ),
        requested is Some && requested->0.worker_id == bound.worker_id && requested->0.dp_rank
            is Some && bound.dp_rank is None ==> target_conflict(bound, requested) == Some(
            AffinityError::BoundWithoutRank { requested_rank: requested->0.dp_rank->0 },
        ),
        requested is Some && requested->0.worker_id == bound.worker_id && requested->0.dp_rank
            is Some && bound.dp_rank is Some && bound.dp_rank != requested->0.dp_rank
            ==> target_conflict(bound, requested) == Some(
            AffinityError::BoundToOtherRank {
                bound_rank: bound.dp_rank->0,
                requested_rank: requested->0.dp_rank->0,
            },
        ),
{
}

/// A session that is not known is chosen a worker for by the request that
/// acquires it, and becomes known, if there is room and its id is not too long.
/// Otherwise nothing changes.
pub proof fn unknown_sessions_are_initialized(c: CoordinatorView, session_id: Seq<char>, now: u64)
    requires
        !c.entries.contains_key(session_id),
    ensures
        ({
            let (after, outcome) = c.acquired(session_id, now);
            let long = vstd::utf8::encode_utf8(session_id).len() > c.max_session_id_bytes;
            &&& long ==> outcome is TooLong && after == c
            &&& !long && c.entry_count >= c.max_entries ==> outcome is Full && after == c
            &&& !long && c.entry_count < c.max_entries ==> {
                &&& outcome is Initialize
                &&& after.entry_count == c.entry_count + 1
                &&& after.entries.contains_key(session_id)
                &&& after.entries[session_id] matches AffinityEntry::Initializing {
                    revision,
                    generation,
                    pending_replica,
                }
                &&& pending_replica is None
                &&& outcome->Initialize_revision == revision
                &&& outcome->Initialize_generation == generation
                &&& generation == c.next_generation
                &&& revision.router_id == c.router_id
                &&& c.last_sequence < u64::MAX ==> revision.sequence == c.last_sequence + 1
                    && after.last_sequence == revision.sequence
                &&& c.next_generation < u64::MAX ==> after.next_generation == c.next_generation + 1
                &&& after.ttl == c.ttl && after.max_entries == c.max_entries
                &&& after.router_id == c.router_id && after.replica_enabled == c.replica_enabled
            }
        }),
{
}

/// A session whose worker is being chosen is waited for.
pub proof fn sessions_being_chosen_are_waited_for(
    c: CoordinatorView,
    session_id: Seq<char>,
    now: u64,
)
    requires
        vstd::utf8::encode_utf8(session_id).len() <= c.max_session_id_bytes,
        c.entries.contains_key(session_id),
        c.entries[session_id] is Initializing,
    ensures
        c.acquired(session_id, now) == (c, AcquireOutcome::Wait),
        c.binding(session_id, now) is None,
{
}

/// A session that is bound is leased once more to the worker that it is bound
/// to, as long as it is in use or its time is not up. A target that waits behind
/// a fence takes over when the fence has passed, and until then the request must
/// go where the fence says. After its time the session is chosen a worker for
/// anew, without counting twice.
pub proof fn bound_sessions_are_leased(c: CoordinatorView, session_id: Seq<char>, now: u64)
    requires
        vstd::utf8::encode_utf8(session_id).len() <= c.max_session_id_bytes,
        c.entries.contains_key(session_id),
        c.entries[session_id] is Bound,
        c.entries[session_id]->active_leases < usize::MAX,
    ensures
        ({
            let entry = c.entries[session_id];
            let (after, outcome) = c.acquired(session_id, now);
            let fence = entry->legacy_fence;
            let fenced = fence is Some && now < fence->0.deadline;
            let target = if fence is Some && !fenced && fence->0.pending_versioned_target is Some {
                fence->0.pending_versioned_target->0
            } else {
                entry->target
            };
            &&& after.entry_count == c.entry_count
            &&& entry->active_leases > 0 || now < entry->idle_deadline ==> {
                &&& outcome is Bound
                &&& outcome->target == target
                &&& outcome->hard_constraint == fenced
                &&& outcome->Bound_revision == entry->Bound_revision
                &&& outcome->Bound_generation == entry->Bound_generation
                &&& after.entries[session_id] is Bound
                &&& after.entries[session_id]->target == target
                &&& after.entries[session_id]->active_leases == entry->active_leases + 1
                &&& after.entries[session_id]->idle_deadline == entry->idle_deadline
                &&& after.entries[session_id]->Bound_revision == entry->Bound_revision
                &&& after.entries[session_id]->Bound_generation == entry->Bound_generation
                &&& after.entries[session_id]->legacy_fence == if fenced {
                    fence
                } else {
                    None
                }
                &&& after.last_sequence == c.last_sequence
                &&& c.binding(session_id, now) == Some(
                    AffinityRoutingBinding { target, hard_constraint: fenced },
                )
            }
            &&& entry->active_leases == 0 && now >= entry->idle_deadline ==> {
                &&& outcome is Initialize
                &&& after.entries[session_id] is Initializing
                &&& c.binding(session_id, now) is None
            }
        }),
{
}

/// Reaping forgets exactly the bindings that nobody uses and whose time is up,
/// and leaves the others as they are.
pub proof fn reaping_forgets_idle_bindings(c: CoordinatorView, session_id: Seq<char>, now: u64)
    ensures
        ({
            let idle = c.entries[session_id] is Bound && c.entries[session_id]->active_leases == 0
                && c.entries[session_id]->idle_deadline <= now;
            &&& c.reaped(now).entries.contains_key(session_id) <==> c.entries.contains_key(
                session_id,
            ) && !idle
            &&& c.entries.contains_key(session_id) && !idle ==> c.reaped(now).entries[session_id]
                == c.entries[session_id]
            &&& c.reaped(now).last_sequence == c.last_sequence
            &&& c.reaped(now).next_generation == c.next_generation
            &&& c.reaped(now).ttl == c.ttl
        }),
{
}

/// The first announcement for a session that is not known binds it at once, for
/// the time that bindings are kept.
pub proof fn announcements_bind_unknown_sessions(
    c: CoordinatorView,
    session_id: Seq<char>,
    target: AffinityTarget,
    revision: AffinityRevision,
    now: u64,
)
    requires
        !c.entries.contains_key(session_id),
        now + c.ttl <= u64::MAX,
        c.ttl > 0,
    ensures
        ({
            let (after, outcome) = c.replicated(session_id, target, revision, now);
            let long = vstd::utf8::encode_utf8(session_id).len() > c.max_session_id_bytes;
            &&& long ==> outcome == ReplicaApplyOutcome::RejectedSessionId && after == c
            &&& !long && c.entry_count >= c.max_entries ==> outcome
                == ReplicaApplyOutcome::RejectedCapacity && after.entries == c.entries
            &&& !long && c.entry_count < c.max_entries ==> {
                &&& outcome == ReplicaApplyOutcome::Inserted
                &&& after.entry_count == c.entry_count + 1
                &&& after.binding(session_id, now) == Some(
                    AffinityRoutingBinding { target, hard_constraint: revision.sequence == 0 },
                )
                &&& after.entries[session_id] is Bound
                &&& after.entries[session_id]->Bound_revision == revision
                &&& after.entries[session_id]->active_leases == 0
                &&& after.entries[session_id]->idle_deadline == now + c.ttl
                &&& after.entries[session_id]->Bound_generation == c.next_generation
            }
            &&& !long ==> after.last_sequence >= revision.sequence && after.last_sequence
                >= c.last_sequence && (after.last_sequence == revision.sequence
                || after.last_sequence == c.last_sequence)
        }),
{
}

/// An announcement for a session that is bound, and whose fence has passed if it
/// had one: a newer one moves it, one that is not newer does not, and one without
/// a number moves it for as long as bindings are kept and then gives it back. In
/// no case it touches the requests that use it, and it renews the time of the
/// binding only where nobody does.
pub proof fn announcements_move_bound_sessions(
    c: CoordinatorView,
    session_id: Seq<char>,
    target: AffinityTarget,
    revision: AffinityRevision,
    now: u64,
    later: u64,
)
    requires
        vstd::utf8::encode_utf8(session_id).len() <= c.max_session_id_bytes,
        c.entries.contains_key(session_id),
        c.entries[session_id] is Bound,
        c.entries[session_id]->legacy_fence is None
            || c.entries[session_id]->legacy_fence->0.deadline <= now,
        now + c.ttl <= u64::MAX,
        c.ttl > 0,
    ensures
        ({
            let entry = c.entries[session_id];
            let fence = entry->legacy_fence;
            let bound_to = if fence is Some && fence->0.pending_versioned_target is Some {
                fence->0.pending_versioned_target->0
            } else {
                entry->target
            };
            let own = entry->Bound_revision;
            let (after, outcome) = c.replicated(session_id, target, revision, now);
            let then = after.entries[session_id];
            let newer = revision.sequence > own.sequence || (revision.sequence == own.sequence
                && revision.router_id > own.router_id);
            let again = revision == own && target == bound_to;
            &&& after.entry_count == c.entry_count
            &&& then is Bound
            &&& then->active_leases == entry->active_leases
            &&& then->Bound_generation == entry->Bound_generation
            &&& entry->active_leases > 0 ==> then->idle_deadline == entry->idle_deadline
            &&& revision.sequence > 0 && newer ==> then->target == target && then->Bound_revision
                == revision && then->legacy_fence is None && outcome
                == ReplicaApplyOutcome::ReplacedNewer
            &&& revision.sequence > 0 && !newer && !again ==> then == entry && outcome
                == ReplicaApplyOutcome::IgnoredStale
            &&& revision.sequence > 0 && !newer && again ==> then->target == bound_to
                && then->Bound_revision == own && then->legacy_fence is None && outcome
                == ReplicaApplyOutcome::Refreshed
            &&& outcome != ReplicaApplyOutcome::IgnoredStale && entry->active_leases == 0
                ==> then->idle_deadline == now + c.ttl
            &&& revision.sequence == 0 ==> {
                &&& outcome == ReplicaApplyOutcome::ReplacedLegacy
                &&& then->target == target
                &&& then->Bound_revision == own
                &&& then->legacy_fence is Some
                &&& then->legacy_fence->0.deadline == now + c.ttl
                &&& own.sequence > 0 && later >= now + c.ttl ==> then.at(later)->target
                    == bound_to && then.at(later)->legacy_fence is None
                &&& later < now + c.ttl ==> then.at(later)->target == target
            }
            &&& after.last_sequence == if revision.sequence > c.last_sequence {
                revision.sequence
            } else {
                c.last_sequence
            }
        }),
{
}

/// An announcement for a session whose fence stands: a newer one waits behind the
/// fence, one that is not newer is ignored, and one without a number takes effect
/// at once and renews the fence. What waits behind it is not lost.
pub proof fn announcements_wait_behind_fences(
    c: CoordinatorView,
    session_id: Seq<char>,
    target: AffinityTarget,
    revision: AffinityRevision,
    now: u64,
)
    requires
        vstd::utf8::encode_utf8(session_id).len() <= c.max_session_id_bytes,
        c.entries.contains_key(session_id),
        c.entries[session_id] is Bound,
        c.entries[session_id]->legacy_fence is Some,
        now < c.entries[session_id]->legacy_fence->0.deadline,
        now + c.ttl <= u64::MAX,
    ensures
        ({
            let entry = c.entries[session_id];
            let fence = entry->legacy_fence->0;
            let own = entry->Bound_revision;
            let (after, outcome) = c.replicated(session_id, target, revision, now);
            let then = after.entries[session_id];
            let newer = revision.sequence > own.sequence || (revision.sequence == own.sequence
                && revision.router_id > own.router_id);
            &&& after.entry_count == c.entry_count
            &&& then is Bound
            &&& then->active_leases == entry->active_leases
            &&& then->Bound_generation == entry->Bound_generation
            &&& revision.sequence > 0 && !newer ==> then == entry && outcome
                == ReplicaApplyOutcome::IgnoredStale
            &&& revision.sequence > 0 && newer ==> {
                &&& outcome == ReplicaApplyOutcome::DeferredLegacy
                &&& then->target == entry->target
                &&& then->Bound_revision == revision
                &&& then->legacy_fence is Some
                &&& then->legacy_fence->0.deadline == fence.deadline
                &&& then->legacy_fence->0.pending_versioned_target == Some(target)
            }
            &&& revision.sequence == 0 ==> {
                &&& outcome == if entry->target == target {
                    ReplicaApplyOutcome::Refreshed
                } else {
                    ReplicaApplyOutcome::ReplacedLegacy
                }
                &&& then->target == target
                &&& then->Bound_revision == own
                &&& then->legacy_fence is Some
                &&& then->legacy_fence->0.deadline == now + c.ttl
                &&& fence.pending_versioned_target is Some
                    ==> then->legacy_fence->0.pending_versioned_target
                    == fence.pending_versioned_target
                &&& fence.pending_versioned_target is None && own.sequence > 0
                    ==> then->legacy_fence->0.pending_versioned_target == Some(entry->target)
            }
            &&& outcome != ReplicaApplyOutcome::IgnoredStale && entry->active_leases == 0
                ==> then->idle_deadline == now + c.ttl
            &&& entry->active_leases > 0 ==> then->idle_deadline == entry->idle_deadline
        }),
{
}

/// Looking up a session takes down a fence of its that has passed, and changes
/// nothing else.
pub proof fn looking_up_takes_down_passed_fences(
    c: CoordinatorView,
    session_id: Seq<char>,
    now: u64,
)
    ensures
        ({
            let after = c.normalized(session_id, now);
            &&& !c.entries.contains_key(session_id) ==> after == c
            &&& c.entries.contains_key(session_id) ==> {
                let entry = c.entries[session_id];
                let then = after.entries[session_id];
                &&& after.entries.contains_key(session_id)
                &&& entry is Initializing ==> then == entry
                &&& entry is Bound && (entry->legacy_fence is None || now
                    < entry->legacy_fence->0.deadline) ==> then == entry
                &&& entry is Bound && entry->legacy_fence is Some && now
                    >= entry->legacy_fence->0.deadline ==> {
                    &&& then is Bound
                    &&& then->legacy_fence is None
                    &&& then->active_leases == entry->active_leases
                    &&& then->idle_deadline == entry->idle_deadline
                    &&& then->Bound_revision == entry->Bound_revision
                    &&& then->Bound_generation == entry->Bound_generation
                    &&& entry->legacy_fence->0.pending_versioned_target is Some ==> then->target
                        == entry->legacy_fence->0.pending_versioned_target->0
                    &&& entry->legacy_fence->0.pending_versioned_target is None ==> then->target
                        == entry->target
                }
            }
            &&& after.entry_count == c.entry_count
            &&& after.last_sequence == c.last_sequence
        }),
{
}

/// An announcement for a session whose worker is being chosen waits for the
/// choice: the choice goes on, and the newest announcement is kept.
pub proof fn announcements_wait_for_the_choice(
    c: CoordinatorView,
    session_id: Seq<char>,
    target: AffinityTarget,
    revision: AffinityRevision,
    now: u64,
)
    requires
        vstd::utf8::encode_utf8(session_id).len() <= c.max_session_id_bytes,
        c.entries.contains_key(session_id),
        c.entries[session_id] is Initializing,
    ensures
        ({
            let entry = c.entries[session_id];
            let (after, outcome) = c.replicated(session_id, target, revision, now);
            let then = after.entries[session_id];
            let kept = then->pending_replica->0;
            &&& after.entry_count == c.entry_count
            &&& then is Initializing
            &&& then->Initializing_revision == entry->Initializing_revision
            &&& then->Initializing_generation == entry->Initializing_generation
            &&& then->pending_replica is Some
            &&& entry->pending_replica is None ==> kept.target == target && kept.revision
                == revision && (kept.legacy_fence is Some <==> revision.sequence == 0) && outcome
                == ReplicaApplyOutcome::DeferredInitializing
            &&& entry->pending_replica is Some && entry->pending_replica->0.legacy_fence is None
                && revision.sequence > entry->pending_replica->0.revision.sequence ==> kept.target
                == target && kept.revision == revision && outcome
                == ReplicaApplyOutcome::DeferredInitializing
            &&& entry->pending_replica is Some && entry->pending_replica->0.legacy_fence is None
                && 0 < revision.sequence < entry->pending_replica->0.revision.sequence ==> kept
                == entry->pending_replica->0 && outcome == ReplicaApplyOutcome::IgnoredStale
            &&& entry->pending_replica is Some && now + c.ttl <= u64::MAX ==> kept
                == entry->pending_replica->0.at(now).updated(
                target,
                revision,
                (now + c.ttl) as u64,
            ).0
        }),
{
}

/// What a request gets is what its attempt came to: an error that tells why, or
/// the session with the worker, the revision and the generation that it has.
pub proof fn results_tell_the_outcome(
    r: Result<AcquireStep, AffinityError>,
    session_id: Seq<char>,
    requested_target: Option<AffinityTarget>,
    max_session_id_bytes: nat,
    outcome: AcquireOutcome,
)
    requires
        acquire_result(r, session_id, requested_target, max_session_id_bytes, outcome),
    ensures
        r is Err <==> outcome is TooLong || outcome is Full,
        outcome is TooLong ==> r->Err_0 is SessionIdTooLong && r->Err_0->max
            == max_session_id_bytes,
        outcome is Full ==> r->Err_0 == AffinityError::EntryLimitReached,
        outcome is Wait ==> r->Ok_0 is Wait,
        outcome is Initialize ==> (r->Ok_0 matches AcquireStep::Acquired(
            AffinityAcquire::Initialize(initialization),
        ) && initialization.session_id@ == session_id && initialization.revision
            == outcome->Initialize_revision && initialization.generation
            == outcome->Initialize_generation && initialization.requested_target
            == requested_target),
        outcome is Bound ==> (r->Ok_0 matches AcquireStep::Acquired(
            AffinityAcquire::Bound { target, hard_constraint, lease },
        ) && target == outcome->target && hard_constraint == outcome->hard_constraint
            && lease.session_id@ == session_id && lease.revision == outcome->Bound_revision
            && lease.generation == outcome->Bound_generation && lease.active),
{
}

/// An announcement is seen with its session, its target and its revision.
pub proof fn announcements_are_seen_whole(update: Option<SessionAffinityUpdate>)
    ensures
        update is Some <==> update_view(update) is Some,
        update is Some ==> update_view(update)->0.session_id == update->0.session_id@
            && update_view(update)->0.target == update->0.target && update_view(
            update,
        )->0.revision == update->0.revision,
{
}

/// Sequences and generations go up by one. A sequence stays at the largest, and a
/// generation starts again at zero. What another router says is taken over if it
/// is ahead.
pub proof fn numbers_go_up(c: CoordinatorView, heard: AffinityRevision, now: u64)
    ensures
        c.last_sequence < u64::MAX ==> c.revised().last_sequence == c.last_sequence + 1,
        c.last_sequence == u64::MAX ==> c.revised().last_sequence == u64::MAX,
        c.revision().sequence == c.revised().last_sequence,
        c.revision().router_id == c.router_id,
        c.next_generation < u64::MAX ==> c.generated().next_generation == c.next_generation + 1,
        c.next_generation == u64::MAX ==> c.generated().next_generation == 0,
        c.revised().entries == c.entries,
        c.generated().entries == c.entries,
        c.observed(heard).entries == c.entries,
        heard.sequence > c.last_sequence ==> c.observed(heard).last_sequence == heard.sequence,
        heard.sequence <= c.last_sequence ==> c.observed(heard).last_sequence == c.last_sequence,
        now + c.ttl <= u64::MAX ==> c.deadline(now) == now + c.ttl,
{
}

} // verus!
