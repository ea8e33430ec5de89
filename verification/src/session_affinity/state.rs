//! Bindings of sessions to workers, and how updates from other routers change
//! them.
//!
//! Times are nanoseconds on one monotonic clock.

use vstd::prelude::*;

verus! {

/// A worker, and where it matters the rank on it.
#[derive(Clone, Copy, Debug, PartialEq, Eq, Structural)]
pub struct AffinityTarget {
    pub worker_id: u64,
    pub dp_rank: Option<u32>,
}

/// Orders the bindings that routers make for one session.
#[derive(Clone, Copy, Debug, PartialEq, Eq, Structural)]
pub struct AffinityRevision {
    pub sequence: u64,
    pub router_id: u64,
}

impl AffinityRevision {
    /// Whether this revision comes after `other`: by sequence first, then by
    /// router.
    pub open spec fn after(self, other: Self) -> bool {
        self.sequence > other.sequence || (self.sequence == other.sequence && self.router_id
            > other.router_id)
    }

    /// Whether it comes from a router that does not number its bindings.
    pub open spec fn legacy(self) -> bool {
        self.sequence == 0
    }

    pub fn is_legacy(self) -> (r: bool)
        ensures
            r == self.legacy(),
    {
        self.sequence == 0
    }

    pub fn is_versioned(self) -> (r: bool)
        ensures
            r == !self.legacy(),
    {
        !self.is_legacy()
    }

    pub fn is_after(self, other: Self) -> (r: bool)
        ensures
            r == self.after(other),
    {
        self.sequence > other.sequence || (self.sequence == other.sequence && self.router_id
            > other.router_id)
    }
}

/// Keeps a binding of a router that does not number its bindings in force
/// until `deadline`.
#[derive(Clone, Copy, Debug, PartialEq, Eq, Structural)]
pub struct LegacyFence {
    pub deadline: u64,
    /// What the binding goes back to afterwards, if anything.
    pub pending_versioned_target: Option<AffinityTarget>,
}

#[derive(Clone, Copy, Debug, PartialEq, Eq, Structural)]
pub struct ReplicaBinding {
    pub target: AffinityTarget,
    pub revision: AffinityRevision,
    pub legacy_fence: Option<LegacyFence>,
}

/// What became of an update from another router.
#[derive(Clone, Copy, Debug, PartialEq, Eq, Structural)]
pub enum ReplicaApplyOutcome {
    Inserted,
    Refreshed,
    ReplacedLegacy,
    ReplacedNewer,
    DeferredInitializing,
    DeferredLegacy,
    IgnoredStale,
    RejectedSessionId,
    RejectedCapacity,
}

/// The target and the fence at `now`: a fence that has passed is gone, and the
/// target that it held back is in force.
pub open spec fn unfenced(
    target: AffinityTarget,
    fence: Option<LegacyFence>,
    now: u64,
) -> (AffinityTarget, Option<LegacyFence>) {
    if fence is Some && fence->0.deadline <= now {
        (
            match fence->0.pending_versioned_target {
                Some(pending) => pending,
                None => target,
            },
            None,
        )
    } else {
        (target, fence)
    }
}

impl ReplicaBinding {
    /// The binding at `now`, rid of a fence that has passed.
    pub open spec fn at(self, now: u64) -> Self {
        let (target, legacy_fence) = unfenced(self.target, self.legacy_fence, now);
        ReplicaBinding { target, legacy_fence, ..self }
    }

    /// The first binding that another router announces for a session.
    pub open spec fn announced(target: AffinityTarget, revision: AffinityRevision, deadline: u64) -> Self {
        ReplicaBinding {
            target,
            revision,
            legacy_fence: if revision.legacy() {
                Some(LegacyFence { deadline, pending_versioned_target: None })
            } else {
                None
            },
        }
    }

    /// How an update changes a binding that has no fence that has passed. A
    /// binding without a revision of its own takes effect at once and is fenced
    /// until `deadline`. While a fence stands, newer targets only wait behind
    /// it. Otherwise the newer one wins.
    pub open spec fn updated(
        self,
        target: AffinityTarget,
        revision: AffinityRevision,
        deadline: u64,
    ) -> (Self, ReplicaApplyOutcome) {
        if revision.legacy() {
            let held = match self.legacy_fence {
                Some(fence) => fence.pending_versioned_target,
                None => None,
            };
            let pending_versioned_target = if held is Some {
                held
            } else if !self.revision.legacy() {
                Some(self.target)
            } else {
                None
            };
            (
                ReplicaBinding {
                    target,
                    legacy_fence: Some(LegacyFence { deadline, pending_versioned_target }),
                    ..self
                },
                if self.target == target && self.legacy_fence is Some {
                    ReplicaApplyOutcome::Refreshed
                } else {
                    ReplicaApplyOutcome::ReplacedLegacy
                },
            )
        } else if self.legacy_fence is Some {
            if revision.after(self.revision) {
                (
                    ReplicaBinding {
                        revision,
                        legacy_fence: Some(
                            LegacyFence {
                                pending_versioned_target: Some(target),
                                ..self.legacy_fence->0
                            },
                        ),
                        ..self
                    },
                    ReplicaApplyOutcome::DeferredLegacy,
                )
            } else {
                (self, ReplicaApplyOutcome::IgnoredStale)
            }
        } else if revision.after(self.revision) {
            (
                ReplicaBinding { target, revision, ..self },
                ReplicaApplyOutcome::ReplacedNewer,
            )
        } else if revision == self.revision && target == self.target {
            (self, ReplicaApplyOutcome::Refreshed)
        } else {
            (self, ReplicaApplyOutcome::IgnoredStale)
        }
    }
}

/// Applies an update from another router at `now`. A fence that it puts up
/// stands for `ttl`.
pub fn apply_replica_binding(
    binding: &mut ReplicaBinding,
    target: AffinityTarget,
    revision: AffinityRevision,
    now: u64,
    ttl: u64,
) -> (r: ReplicaApplyOutcome)
    requires
        revision.legacy() ==> now + ttl <= u64::MAX,
    ensures
        (*final(binding), r) == old(binding).at(now).updated(target, revision, (now + ttl) as u64),
{
    normalize_expired_replica_fence(binding, now);
    if revision.is_legacy() {
        let refreshed = binding.target == target && binding.legacy_fence.is_some();
        let held = match binding.legacy_fence {
            Some(fence) => fence.pending_versioned_target,
            None => None,
        };
        let pending_versioned_target = match held {
            Some(pending) => Some(pending),
            None => {
                if binding.revision.is_versioned() {
                    Some(binding.target)
                } else {
                    None
                }
            },
        };
        binding.target = target;
        binding.legacy_fence = Some(
            LegacyFence { deadline: now + ttl, pending_versioned_target },
        );
        return if refreshed {
            ReplicaApplyOutcome::Refreshed
        } else {
            ReplicaApplyOutcome::ReplacedLegacy
        };
    }
    if let Some(fence) = binding.legacy_fence {
        if !revision.is_after(binding.revision) {
            return ReplicaApplyOutcome::IgnoredStale;
        }
        binding.revision = revision;
        binding.legacy_fence = Some(
            LegacyFence { deadline: fence.deadline, pending_versioned_target: Some(target) },
        );
        return ReplicaApplyOutcome::DeferredLegacy;
    }
    if revision.is_after(binding.revision) {
        binding.target = target;
        binding.revision = revision;
        return ReplicaApplyOutcome::ReplacedNewer;
    }
    if revision == binding.revision && target == binding.target {
        return ReplicaApplyOutcome::Refreshed;
    }
    ReplicaApplyOutcome::IgnoredStale
}

/// Takes down a fence that has passed.
pub fn normalize_expired_replica_fence(binding: &mut ReplicaBinding, now: u64)
    ensures
        *final(binding) == old(binding).at(now),
{
    normalize_expired_legacy_fence(&mut binding.target, &mut binding.legacy_fence, now);
}

/// Takes down a fence that has passed, and puts what waited behind it in force.
pub fn normalize_expired_legacy_fence(
    target: &mut AffinityTarget,
    legacy_fence: &mut Option<LegacyFence>,
    now: u64,
)
    ensures
        (*final(target), *final(legacy_fence)) == unfenced(*old(target), *old(legacy_fence), now),
{
    match *legacy_fence {
        None => {},
        Some(fence) => {
            if fence.deadline <= now {
                match fence.pending_versioned_target {
                    Some(pending) => {
                        *target = pending;
                    },
                    None => {},
                }
                *legacy_fence = None;
            }
        },
    }
}

/// The first revision of a router that starts now. `since_epoch` is the wall
/// clock in nanoseconds, `None` where it is set before the epoch.
pub fn revision_timestamp(since_epoch: Option<u128>) -> (r: u64)
    ensures
        r == match since_epoch {
            None => 0,
            Some(nanos) => if nanos <= u64::MAX {
                nanos as u64
            } else {
                (u64::MAX - 1) as u64
            },
        },
{
    match since_epoch {
        None => 0,
        Some(nanos) => {
            if nanos <= u64::MAX as u128 {
                nanos as u64
            } else {
                u64::MAX - 1
            }
        },
    }
}

/// Revisions are totally ordered.
pub proof fn revisions_are_ordered(a: AffinityRevision, b: AffinityRevision, c: AffinityRevision)
    ensures
        !a.after(a),
        a.after(b) || b.after(a) || a == b,
        a.after(b) ==> !b.after(a),
        a.after(b) && b.after(c) ==> a.after(c),
{
}

/// A numbered update that is no newer than the binding changes neither its
/// target nor its revision.
pub proof fn stale_updates_are_ignored(
    binding: ReplicaBinding,
    target: AffinityTarget,
    revision: AffinityRevision,
    deadline: u64,
)
    requires
        !revision.legacy(),
        !revision.after(binding.revision),
    ensures
        binding.updated(target, revision, deadline).0 == binding,
{
}

/// Two numbered updates lead to the same binding in whichever order they come,
/// so routers that have seen the same updates agree. Updates of one revision
/// have to agree on their target.
pub proof fn updates_commute(
    binding: ReplicaBinding,
    target_a: AffinityTarget,
    a: AffinityRevision,
    target_b: AffinityTarget,
    b: AffinityRevision,
    deadline: u64,
)
    requires
        !a.legacy(),
        !b.legacy(),
        a == b ==> target_a == target_b,
    ensures
        binding.updated(target_a, a, deadline).0.updated(target_b, b, deadline).0
            == binding.updated(target_b, b, deadline).0.updated(target_a, a, deadline).0,
{
}

/// Applying an update again changes nothing.
pub proof fn updates_are_idempotent(
    binding: ReplicaBinding,
    target: AffinityTarget,
    revision: AffinityRevision,
    deadline: u64,
)
    ensures
        ({
            let once = binding.updated(target, revision, deadline).0;
            once.updated(target, revision, deadline).0 == once
        }),
{
}

/// A numbered update never makes a binding older.
pub proof fn revisions_never_go_back(
    binding: ReplicaBinding,
    target: AffinityTarget,
    revision: AffinityRevision,
    deadline: u64,
)
    ensures
        !binding.revision.after(binding.updated(target, revision, deadline).0.revision),
{
}

/// While a fence stands, a numbered update leaves the target alone. Once the
/// fence has passed, the newest target that waited behind it is in force.
pub proof fn fence_holds_newer_targets_back(
    binding: ReplicaBinding,
    target: AffinityTarget,
    revision: AffinityRevision,
    deadline: u64,
    later: u64,
)
    requires
        binding.legacy_fence is Some,
        !revision.legacy(),
        revision.after(binding.revision),
        binding.legacy_fence->0.deadline <= later,
    ensures
        ({
            let next = binding.updated(target, revision, deadline).0;
            &&& next.target == binding.target
            &&& next.at(later).target == target
            &&& next.at(later).legacy_fence is None
        }),
{
}

/// What another router announces of a session.
pub struct Announcement {
    pub target: AffinityTarget,
    pub revision: AffinityRevision,
}

/// A binding after some updates, one after the other.
pub open spec fn updated_by(
    binding: ReplicaBinding,
    updates: Seq<Announcement>,
    deadline: u64,
) -> ReplicaBinding
    decreases updates.len(),
{
    if updates.len() == 0 {
        binding
    } else {
        let last = updates.last();
        updated_by(binding, updates.drop_last(), deadline).updated(
            last.target,
            last.revision,
            deadline,
        ).0
    }
}

proof fn lemma_newest_wins(binding: ReplicaBinding, updates: Seq<Announcement>, deadline: u64)
    requires
        binding.legacy_fence is None,
        forall|i: int| 0 <= i < updates.len() ==> !(#[trigger] updates[i]).revision.legacy(),
    ensures
        ({
            let end = updated_by(binding, updates, deadline);
            &&& end.legacy_fence is None
            &&& !binding.revision.after(end.revision)
            &&& forall|i: int|
                0 <= i < updates.len() ==> !(#[trigger] updates[i]).revision.after(end.revision)
            &&& end == binding || exists|i: int|
                0 <= i < updates.len() && (#[trigger] updates[i]).revision == end.revision
                    && updates[i].target == end.target && end.revision.after(binding.revision)
        }),
    decreases updates.len(),
{
    if updates.len() > 0 {
        let front = updates.drop_last();
        assert forall|i: int| 0 <= i < front.len() implies !(
        #[trigger] front[i]).revision.legacy() by {
            assert(front[i] == updates[i]);
        }
        lemma_newest_wins(binding, front, deadline);
        let middle = updated_by(binding, front, deadline);
        let last = updates[updates.len() - 1];
        let end = updated_by(binding, updates, deadline);
        assert(end == middle.updated(last.target, last.revision, deadline).0);
        assert forall|i: int| 0 <= i < updates.len() implies !(
        #[trigger] updates[i]).revision.after(end.revision) by {
            if i < front.len() {
                assert(front[i] == updates[i]);
            }
        }
        if end == middle {
            if middle != binding {
                let i = choose|i: int|
                    0 <= i < front.len() && (#[trigger] front[i]).revision == middle.revision
                        && front[i].target == middle.target && middle.revision.after(
                        binding.revision,
                    );
                assert(updates[i] == front[i]);
            }
        } else {
            assert(updates[updates.len() - 1].revision == end.revision);
        }
    }
}

/// Routers that start from the same binding and have heard the same numbered
/// announcements agree, in whatever order and however often they heard them.
/// Announcements of one revision have to agree on their target.
pub proof fn replicas_converge(
    binding: ReplicaBinding,
    one: Seq<Announcement>,
    other: Seq<Announcement>,
    deadline: u64,
    other_deadline: u64,
)
    requires
        binding.legacy_fence is None,
        forall|i: int| 0 <= i < one.len() ==> !(#[trigger] one[i]).revision.legacy(),
        forall|i: int| 0 <= i < one.len() ==> other.contains(#[trigger] one[i]),
        forall|i: int| 0 <= i < other.len() ==> one.contains(#[trigger] other[i]),
        forall|i: int, j: int|
            0 <= i < one.len() && 0 <= j < one.len() && (#[trigger] one[i]).revision == (
            #[trigger] one[j]).revision ==> one[i].target == one[j].target,
    ensures
        updated_by(binding, one, deadline) == updated_by(binding, other, other_deadline),
{
    assert forall|i: int| 0 <= i < other.len() implies !(#[trigger] other[i]).revision.legacy() by {
        assert(one.contains(other[i]));
        let k = choose|k: int| 0 <= k < one.len() && one[k] == other[i];
        assert(!one[k].revision.legacy());
    }
    lemma_newest_wins(binding, one, deadline);
    lemma_newest_wins(binding, other, other_deadline);
    let a = updated_by(binding, one, deadline);
    let b = updated_by(binding, other, other_deadline);
    if a != binding {
        let i = choose|i: int|
            0 <= i < one.len() && (#[trigger] one[i]).revision == a.revision && one[i].target
                == a.target && a.revision.after(binding.revision);
        assert(other.contains(one[i]));
        let j = choose|j: int| 0 <= j < other.len() && other[j] == one[i];
        assert(!other[j].revision.after(b.revision));
        assert(b != binding);
        let k = choose|k: int|
            0 <= k < other.len() && (#[trigger] other[k]).revision == b.revision && other[k].target
                == b.target && b.revision.after(binding.revision);
        assert(one.contains(other[k]));
        let l = choose|l: int| 0 <= l < one.len() && one[l] == other[k];
        assert(!one[l].revision.after(a.revision));
        revisions_are_ordered(a.revision, b.revision, b.revision);
        assert(one[i].revision == one[l].revision);
    } else if b != binding {
        let k = choose|k: int|
            0 <= k < other.len() && (#[trigger] other[k]).revision == b.revision && other[k].target
                == b.target && b.revision.after(binding.revision);
        assert(one.contains(other[k]));
        let l = choose|l: int| 0 <= l < one.len() && one[l] == other[k];
        assert(!one[l].revision.after(a.revision));
    }
}

/// A fence stands until its deadline and not a moment longer. When it has
/// passed, what waited behind it is in force, and where nothing waited the
/// binding stays as it is.
pub proof fn fences_pass_at_their_deadline(binding: ReplicaBinding, now: u64)
    ensures
        binding.at(now).revision == binding.revision,
        binding.legacy_fence is None ==> binding.at(now) == binding,
        binding.legacy_fence is Some && now < binding.legacy_fence->0.deadline ==> binding.at(now)
            == binding,
        binding.legacy_fence is Some && now >= binding.legacy_fence->0.deadline ==> {
            let waiting = binding.legacy_fence->0.pending_versioned_target;
            &&& binding.at(now).legacy_fence is None
            &&& waiting is Some ==> binding.at(now).target == waiting->0
            &&& waiting is None ==> binding.at(now).target == binding.target
        },
{
}

/// An announcement without a number takes effect at once, whatever the binding
/// was, and keeps the newest numbered target waiting behind it.
pub proof fn unnumbered_updates_take_effect(
    binding: ReplicaBinding,
    target: AffinityTarget,
    revision: AffinityRevision,
    deadline: u64,
)
    requires
        revision.sequence == 0,
    ensures
        ({
            let (next, outcome) = binding.updated(target, revision, deadline);
            &&& next.target == target
            &&& next.revision == binding.revision
            &&& next.legacy_fence is Some
            &&& next.legacy_fence->0.deadline == deadline
            &&& binding.legacy_fence is Some
                && binding.legacy_fence->0.pending_versioned_target is Some
                ==> next.legacy_fence->0.pending_versioned_target
                == binding.legacy_fence->0.pending_versioned_target
            &&& binding.legacy_fence is None && binding.revision.sequence > 0
                ==> next.legacy_fence->0.pending_versioned_target == Some(binding.target)
            &&& binding.legacy_fence is None && binding.revision.sequence == 0
                ==> next.legacy_fence->0.pending_versioned_target is None
            &&& outcome == if binding.legacy_fence is Some && binding.target == target {
                ReplicaApplyOutcome::Refreshed
            } else {
                ReplicaApplyOutcome::ReplacedLegacy
            }
        }),
{
}

/// A numbered announcement moves an unfenced binding just if it is newer, and
/// waits behind a fence just if it is newer.
pub proof fn newer_updates_win(
    binding: ReplicaBinding,
    target: AffinityTarget,
    revision: AffinityRevision,
    deadline: u64,
)
    requires
        revision.sequence > 0,
    ensures
        ({
            let newer = revision.sequence > binding.revision.sequence || (revision.sequence
                == binding.revision.sequence && revision.router_id > binding.revision.router_id);
            let (next, outcome) = binding.updated(target, revision, deadline);
            &&& !newer ==> next == binding
            &&& newer && binding.legacy_fence is None ==> next.target == target && next.revision
                == revision && next.legacy_fence is None && outcome
                == ReplicaApplyOutcome::ReplacedNewer
            &&& newer && binding.legacy_fence is Some ==> {
                &&& next.target == binding.target
                &&& next.revision == revision
                &&& next.legacy_fence is Some
                &&& next.legacy_fence->0.deadline == binding.legacy_fence->0.deadline
                &&& next.legacy_fence->0.pending_versioned_target == Some(target)
                &&& outcome == ReplicaApplyOutcome::DeferredLegacy
            }
            &&& !newer && (binding.legacy_fence is Some || revision != binding.revision || target
                != binding.target) ==> outcome == ReplicaApplyOutcome::IgnoredStale
            &&& !newer && binding.legacy_fence is None && revision == binding.revision && target
                == binding.target ==> outcome == ReplicaApplyOutcome::Refreshed
        }),
{
}

} // verus!
