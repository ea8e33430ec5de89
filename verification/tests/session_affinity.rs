use dynamo_core::session_affinity::coordinator::{
    create_affinity_coordinator, explicit_target, validate_bound_target, AcquireStep,
    AffinityCoordinator, AffinityError, AffinityErrorKind, RequestPhase, RoutingHints,
    MAX_SESSION_AFFINITY_ENTRIES, MAX_SESSION_AFFINITY_ID_BYTES, MAX_SESSION_AFFINITY_TTL_SECS,
};
use dynamo_core::session_affinity::lifecycle::{
    AffinityAcquire, AffinityInitialization, AffinityLease,
};
use dynamo_core::session_affinity::state::{
    apply_replica_binding, revision_timestamp, AffinityRevision, AffinityTarget, ReplicaApplyOutcome,
    ReplicaBinding,
};

const SECOND: u64 = 1_000_000_000;
const TTL: u64 = 10 * SECOND;

fn coordinator() -> AffinityCoordinator {
    AffinityCoordinator::new(TTL as u128, 100).ok().unwrap()
}

fn target(worker_id: u64) -> AffinityTarget {
    AffinityTarget {
        worker_id,
        dp_rank: None,
    }
}

fn revision(sequence: u64) -> AffinityRevision {
    AffinityRevision {
        sequence,
        router_id: 99,
    }
}

fn acquire(c: &mut AffinityCoordinator, session: &str, now: u64) -> AffinityAcquire {
    match c.acquire(session, None, now) {
        Ok(AcquireStep::Acquired(acquired)) => acquired,
        Ok(AcquireStep::Wait) => panic!("another request chooses"),
        Err(error) => panic!("refused: {error:?}"),
    }
}

fn initialize(c: &mut AffinityCoordinator, session: &str, now: u64) -> AffinityInitialization {
    match acquire(c, session, now) {
        AffinityAcquire::Initialize(initialization) => initialization,
        AffinityAcquire::Bound { .. } => panic!("already bound"),
    }
}

fn lease_of(acquired: AffinityAcquire) -> (AffinityTarget, AffinityLease) {
    match acquired {
        AffinityAcquire::Bound { target, lease, .. } => (target, lease),
        AffinityAcquire::Initialize(_) => panic!("not bound"),
    }
}

#[test]
fn session_stays_on_its_worker_until_idle_for_too_long() {
    let mut c = coordinator();
    let mut first = initialize(&mut c, "s", 0).commit(&mut c, target(1), 0).unwrap();
    assert!(matches!(
        c.acquire("other", None, 0),
        Ok(AcquireStep::Acquired(AffinityAcquire::Initialize(_)))
    ));
    let (bound, mut second) = lease_of(acquire(&mut c, "s", 100 * SECOND));
    assert_eq!(bound, target(1));
    first.release(&mut c, 101 * SECOND);
    c.reap(500 * SECOND);
    assert_eq!(c.query_target("s", 500 * SECOND), Ok(Some(target(1))));
    second.release(&mut c, 500 * SECOND);
    assert_eq!(
        c.query_target("s", 500 * SECOND + TTL - 1),
        Ok(Some(target(1)))
    );
    assert_eq!(c.query_target("s", 500 * SECOND + TTL), Ok(None));
    assert_eq!(c.entry_count(), 2);
    c.reap(500 * SECOND + TTL);
    assert_eq!(c.entry_count(), 1);
}

#[test]
fn expired_binding_is_chosen_anew() {
    let mut c = coordinator();
    let mut lease = initialize(&mut c, "s", 0).commit(&mut c, target(1), 0).unwrap();
    lease.release(&mut c, 0);
    let again = initialize(&mut c, "s", TTL);
    assert_eq!(c.entry_count(), 1);
    again.commit(&mut c, target(2), TTL).unwrap();
    assert_eq!(c.query_target("s", TTL), Ok(Some(target(2))));
}

#[test]
fn others_wait_for_the_request_that_chooses() {
    let mut c = coordinator();
    let chooses = initialize(&mut c, "s", 0);
    assert!(matches!(c.acquire("s", None, 0), Ok(AcquireStep::Wait)));
    assert_eq!(c.query_target("s", 0), Ok(None));
    chooses.abandon(&mut c, 1);
    assert_eq!(c.entry_count(), 0);
    initialize(&mut c, "s", 2);
}

#[test]
fn limits_are_kept() {
    assert_eq!(MAX_SESSION_AFFINITY_ENTRIES, 65_536);
    assert_eq!(MAX_SESSION_AFFINITY_ID_BYTES, 256);
    let mut c = AffinityCoordinator::new_with_limits(TTL as u128, 0, 1, 2)
        .ok()
        .unwrap();
    assert_eq!(
        c.acquire("é1", None, 0).err(),
        Some(AffinityError::SessionIdTooLong { max: 2 })
    );
    assert_eq!(
        c.query_binding("abc", 0).err(),
        Some(AffinityError::SessionIdTooLong { max: 2 })
    );
    initialize(&mut c, "é", 0);
    let full = c.acquire("b", None, 0).err().unwrap();
    assert_eq!(full, AffinityError::EntryLimitReached);
    assert_eq!(full.kind(), AffinityErrorKind::ResourceExhausted);
    assert_eq!(
        c.apply_replica_update("b", target(1), revision(1), 0),
        ReplicaApplyOutcome::RejectedCapacity
    );
    assert_eq!(
        c.apply_replica_update("abc", target(1), revision(1), 0),
        ReplicaApplyOutcome::RejectedSessionId
    );
}

#[test]
fn time_to_keep_bindings_is_limited() {
    let longest = MAX_SESSION_AFFINITY_TTL_SECS as u128 * SECOND as u128;
    assert!(AffinityCoordinator::new(longest, 0).is_ok());
    for ttl in [0, SECOND as u128 - 1, longest + 1] {
        let error = AffinityCoordinator::new(ttl, 0).err().unwrap();
        assert_eq!(error, AffinityError::TtlOutOfRange);
        assert_eq!(error.kind(), AffinityErrorKind::InvalidArgument);
    }
    assert!(create_affinity_coordinator(None, 0).ok().unwrap().is_none());
    assert_eq!(coordinator().reap_period(), TTL);
    assert_eq!(
        AffinityCoordinator::new(longest, 0).ok().unwrap().reap_period(),
        30 * SECOND
    );
}

#[test]
fn requested_targets_have_to_match() {
    let ranked = |worker_id, rank| AffinityTarget {
        worker_id,
        dp_rank: Some(rank),
    };
    assert_eq!(validate_bound_target(target(1), None), Ok(()));
    assert_eq!(validate_bound_target(ranked(1, 2), Some(target(1))), Ok(()));
    assert_eq!(
        validate_bound_target(target(1), Some(target(2))),
        Err(AffinityError::BoundToOtherWorker {
            bound: 1,
            requested: 2
        })
    );
    assert_eq!(
        validate_bound_target(ranked(1, 2), Some(ranked(1, 3))),
        Err(AffinityError::BoundToOtherRank {
            bound_rank: 2,
            requested_rank: 3
        })
    );
    assert_eq!(
        validate_bound_target(target(1), Some(ranked(1, 3))),
        Err(AffinityError::BoundWithoutRank { requested_rank: 3 })
    );
    let mut c = coordinator();
    let asked = match c.acquire("s", Some(target(5)), 0) {
        Ok(AcquireStep::Acquired(AffinityAcquire::Initialize(initialization))) => initialization,
        _ => panic!("not chosen yet"),
    };
    assert!(asked.commit(&mut c, target(6), 0).is_err());
    assert_eq!(c.entry_count(), 0);
}

#[test]
fn stale_initializations_cannot_commit() {
    let mut c = coordinator();
    let first = initialize(&mut c, "s", 0);
    let copy = AffinityInitialization {
        session_id: first.session_id.clone(),
        revision: first.revision,
        generation: first.generation,
        requested_target: None,
    };
    first.commit(&mut c, target(1), 0).unwrap();
    assert_eq!(
        copy.commit(&mut c, target(2), 0).err(),
        Some(AffinityError::InitializationChanged)
    );
    assert_eq!(c.query_target("s", 0), Ok(Some(target(1))));
    let gone = AffinityInitialization {
        session_id: "gone".to_string(),
        revision: revision(1),
        generation: 7,
        requested_target: None,
    };
    assert_eq!(
        gone.commit(&mut c, target(2), 0).err(),
        Some(AffinityError::InitializationCancelled)
    );
}

#[test]
fn newer_announcements_win_in_any_order() {
    for order in [[1, 2, 3], [3, 2, 1], [2, 3, 1]] {
        let mut c = coordinator();
        for sequence in order {
            c.apply_replica_update("s", target(sequence), revision(sequence), 0);
        }
        assert_eq!(c.query_target("s", 0), Ok(Some(target(3))));
    }
    let mut c = coordinator();
    assert_eq!(
        c.apply_replica_update("s", target(2), revision(2), 0),
        ReplicaApplyOutcome::Inserted
    );
    assert_eq!(
        c.apply_replica_update("s", target(2), revision(2), 1),
        ReplicaApplyOutcome::Refreshed
    );
    assert_eq!(
        c.apply_replica_update("s", target(9), revision(1), 1),
        ReplicaApplyOutcome::IgnoredStale
    );
    assert_eq!(
        c.apply_replica_update("s", target(3), revision(3), 1),
        ReplicaApplyOutcome::ReplacedNewer
    );
}

#[test]
fn legacy_announcements_hold_newer_ones_back_for_a_while() {
    let mut c = coordinator();
    c.apply_replica_update("s", target(1), revision(5), 0);
    assert_eq!(
        c.apply_replica_update("s", target(2), revision(0), 0),
        ReplicaApplyOutcome::ReplacedLegacy
    );
    assert!(c.query_binding("s", 0).unwrap().unwrap().hard_constraint);
    assert_eq!(
        c.apply_replica_update("s", target(3), revision(6), 1),
        ReplicaApplyOutcome::DeferredLegacy
    );
    assert_eq!(c.query_target("s", TTL - 1), Ok(Some(target(2))));
    let mut lease = lease_of(acquire(&mut c, "s", TTL - 1)).1;
    let after = c.query_binding("s", TTL).unwrap().unwrap();
    assert_eq!(after.target, target(3));
    assert!(!after.hard_constraint);
    lease.release(&mut c, TTL);
}

#[test]
fn announcements_during_a_choice_are_kept() {
    let mut c = coordinator();
    let chooses = initialize(&mut c, "s", 0);
    assert_eq!(
        c.apply_replica_update("s", target(7), revision(500), 0),
        ReplicaApplyOutcome::DeferredInitializing
    );
    chooses.abandon(&mut c, 1);
    assert_eq!(c.query_target("s", 1), Ok(Some(target(7))));

    let mut c = coordinator();
    let chooses = initialize(&mut c, "s", 0);
    c.apply_replica_update("s", target(7), revision(0), 0);
    let lease = chooses.commit(&mut c, target(1), 1).unwrap();
    assert_eq!(lease.revision, revision(0));
    assert_eq!(c.query_target("s", 1), Ok(Some(target(7))));
}

#[test]
fn bindings_are_announced_with_newer_revisions() {
    let mut c = coordinator();
    assert_eq!(c.enable_replica_sync(4), Ok(()));
    assert_eq!(
        c.enable_replica_sync(4),
        Err(AffinityError::ReplicaSyncAlreadyEnabled)
    );
    c.apply_replica_update("other", target(1), revision(1_000), 0);
    let acquired = acquire(&mut c, "s", 0);
    let (lease, update) = acquired.into_stream(&mut c, target(1), 0).unwrap();
    let update = update.unwrap();
    assert_eq!(update.session_id, "s");
    assert_eq!(update.target, target(1));
    assert_eq!(update.revision.router_id, 4);
    assert!(update.revision.sequence > 1_000);
    assert_eq!(update.revision, lease.revision);

    let acquired = acquire(&mut c, "s", 1);
    let (moved, update) = acquired.into_stream(&mut c, target(2), 1).unwrap();
    let update = update.unwrap();
    assert_eq!(update.target, target(2));
    assert!(update.revision.is_after(lease.revision));
    assert_eq!(moved.revision, update.revision);
    assert_eq!(c.query_target("s", 1), Ok(Some(target(2))));
}

#[test]
fn failed_workers_are_forgotten_unless_the_binding_moved() {
    let mut c = coordinator();
    initialize(&mut c, "s", 0).commit(&mut c, target(1), 0).unwrap();
    let acquired = acquire(&mut c, "s", 0);
    assert_eq!(acquired.target(), Some(target(1)));
    assert!(acquired.invalidate_selected(&mut c, target(2), 0).is_none());
    assert_eq!(c.entry_count(), 1);
    let acquired = acquire(&mut c, "s", 0);
    acquired.invalidate_selected(&mut c, target(1), 0);
    assert_eq!(c.entry_count(), 0);

    initialize(&mut c, "s", 0).commit(&mut c, target(1), 0).unwrap();
    let acquired = acquire(&mut c, "s", 0);
    c.apply_replica_update("s", target(3), revision(u64::MAX), 0);
    acquired.invalidate(&mut c, 0);
    assert_eq!(c.query_target("s", 0), Ok(Some(target(3))));
    let waiting = acquire(&mut c, "new", 0);
    assert!(waiting.routing_binding().is_none());
    waiting.invalidate(&mut c, 0);
    assert_eq!(c.entry_count(), 1);
}

#[test]
fn hints_name_the_target_of_a_phase() {
    let hints = RoutingHints {
        backend_instance_id: Some(1),
        prefill_worker_id: Some(2),
        decode_worker_id: None,
        dp_rank: Some(3),
        prefill_dp_rank: None,
    };
    assert_eq!(explicit_target(None, RequestPhase::Decode), Ok(None));
    assert_eq!(
        explicit_target(Some(&hints), RequestPhase::Prefill),
        Ok(Some(AffinityTarget {
            worker_id: 2,
            dp_rank: Some(3)
        }))
    );
    for phase in [RequestPhase::Decode, RequestPhase::Aggregated] {
        assert_eq!(
            explicit_target(Some(&hints), phase),
            Ok(Some(AffinityTarget {
                worker_id: 1,
                dp_rank: Some(3)
            }))
        );
    }
    let ranked = RoutingHints {
        backend_instance_id: None,
        prefill_worker_id: None,
        ..hints
    };
    assert_eq!(
        explicit_target(Some(&ranked), RequestPhase::Decode),
        Err(AffinityError::DpRankWithoutWorker)
    );
}

#[test]
fn first_revision_is_the_wall_clock() {
    assert_eq!(revision_timestamp(None), 0);
    assert_eq!(revision_timestamp(Some(12)), 12);
    assert_eq!(revision_timestamp(Some(u128::MAX)), u64::MAX - 1);
    assert!(revision(0).is_legacy());
    assert!(revision(1).is_versioned());
    assert!(!revision(1).is_after(revision(1)));
}

#[test]
fn binding_anew_overtakes_what_is_stored() {
    let mut c = coordinator();
    let initialization = initialize(&mut c, "s", 0);
    let chosen = initialization.revision;
    let mut lease = initialization.commit(&mut c, target(1), 0).unwrap();
    assert!(lease.revision.is_after(chosen));
    assert_eq!(c.active_leases("s"), 1);
    assert_eq!(c.active_leases("other"), 0);
    c.apply_replica_update("other", target(3), revision(1_000), 0);
    let before = lease.revision;
    assert!(lease.rebind(&mut c, target(2)));
    assert!(lease.revision.is_after(before));
    assert!(lease.revision.is_after(revision(1_000)));
    assert_eq!(c.query_target("s", 1), Ok(Some(target(2))));
}

#[test]
fn numbered_update_needs_no_deadline() {
    let mut binding = ReplicaBinding {
        target: target(1),
        revision: revision(1),
        legacy_fence: None,
    };
    let outcome = apply_replica_binding(&mut binding, target(2), revision(2), u64::MAX, TTL);
    assert_eq!(outcome, ReplicaApplyOutcome::ReplacedNewer);
    assert_eq!(binding.target, target(2));
}
