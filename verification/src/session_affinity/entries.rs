//! What a router keeps of a session.

use crate::session_affinity::state;
use crate::session_affinity::state::{
    normalize_expired_legacy_fence, AffinityRevision, AffinityTarget, LegacyFence, ReplicaBinding,
};
use vstd::prelude::*;

verus! {

#[derive(Clone, Copy, Debug, PartialEq, Eq, Structural)]
pub enum AffinityEntry {
    /// A request is choosing the worker.
    Initializing {
        revision: AffinityRevision,
        generation: u64,
        /// What other routers announced meanwhile.
        pending_replica: Option<ReplicaBinding>,
    },
    Bound {
        target: AffinityTarget,
        revision: AffinityRevision,
        generation: u64,
        active_leases: usize,
        idle_deadline: u64,
        legacy_fence: Option<LegacyFence>,
    },
}

impl AffinityEntry {
    /// The entry at `now`, rid of a fence that has passed.
    pub open spec fn at(self, now: u64) -> Self {
        match self {
            AffinityEntry::Initializing { .. } => self,
            AffinityEntry::Bound {
                target,
                revision,
                generation,
                active_leases,
                idle_deadline,
                legacy_fence,
            } => {
                let (target, legacy_fence) = state::unfenced(target, legacy_fence, now);
                AffinityEntry::Bound {
                    target,
                    revision,
                    generation,
                    active_leases,
                    idle_deadline,
                    legacy_fence,
                }
            },
        }
    }

    /// Whether nothing uses the binding any more and its time is up.
    pub open spec fn expired(self, now: u64) -> bool {
        match self {
            AffinityEntry::Initializing { .. } => false,
            AffinityEntry::Bound { active_leases, idle_deadline, .. } => active_leases == 0
                && idle_deadline <= now,
        }
    }

    /// The revision of the choice or of the binding.
    pub open spec fn revision(self) -> AffinityRevision {
        match self {
            AffinityEntry::Initializing { revision, .. } => revision,
            AffinityEntry::Bound { revision, .. } => revision,
        }
    }

    /// What other routers announced while the worker was being chosen.
    pub open spec fn pending(self) -> Option<ReplicaBinding> {
        match self {
            AffinityEntry::Initializing { pending_replica, .. } => pending_replica,
            AffinityEntry::Bound { .. } => None,
        }
    }

    /// Whether no revision in the entry has a sequence beyond `sequence`.
    pub open spec fn within(self, sequence: u64) -> bool {
        &&& self.revision().sequence <= sequence
        &&& self.pending() matches Some(binding) ==> binding.revision.sequence <= sequence
    }

    /// How many requests use the binding.
    pub open spec fn leases(self) -> nat {
        match self {
            AffinityEntry::Initializing { .. } => 0,
            AffinityEntry::Bound { active_leases, .. } => active_leases as nat,
        }
    }

    pub fn is_expired(&self, now: u64) -> (r: bool)
        ensures
            r == self.expired(now),
    {
        match self {
            AffinityEntry::Initializing { .. } => false,
            AffinityEntry::Bound { active_leases, idle_deadline, .. } => *active_leases == 0
                && *idle_deadline <= now,
        }
    }

    /// Takes down a fence that has passed.
    pub fn normalized(self, now: u64) -> (r: Self)
        ensures
            r == self.at(now),
    {
        match self {
            AffinityEntry::Initializing { .. } => self,
            AffinityEntry::Bound {
                target,
                revision,
                generation,
                active_leases,
                idle_deadline,
                legacy_fence,
            } => {
                let mut target = target;
                let mut legacy_fence = legacy_fence;
                normalize_expired_legacy_fence(&mut target, &mut legacy_fence, now);
                AffinityEntry::Bound {
                    target,
                    revision,
                    generation,
                    active_leases,
                    idle_deadline,
                    legacy_fence,
                }
            },
        }
    }
}

/// `dashmap::DashMap`, a concurrent map.
#[verifier::external_type_specification]
#[verifier::external_body]
#[verifier::reject_recursive_types(K)]
#[verifier::reject_recursive_types(V)]
#[verifier::reject_recursive_types(S)]
pub struct ExDashMap<K, V, S>(dashmap::DashMap<K, V, S>);

/// The entries of a map by session id.
pub uninterp spec fn sessions(
    entries: dashmap::DashMap<String, AffinityEntry, std::hash::RandomState>,
) -> Map<Seq<char>, AffinityEntry>;

/// The entries of a router that has seen no session.
pub open spec fn no_sessions() -> Map<Seq<char>, AffinityEntry> {
    Map::empty()
}

/// `dashmap::DashMap::new`: an empty map.
#[verifier::external_body]
pub(crate) fn new_entries() -> (r: dashmap::DashMap<String, AffinityEntry, std::hash::RandomState>)
    ensures
        sessions(r) == no_sessions(),
{
    dashmap::DashMap::new()
}

/// `dashmap::DashMap::get`: the entry of a session, if it has one.
#[verifier::external_body]
pub(crate) fn get_entry(
    entries: &dashmap::DashMap<String, AffinityEntry, std::hash::RandomState>,
    session_id: &str,
) -> (r: Option<AffinityEntry>)
    ensures
        r == sessions(*entries).get(session_id@),
{
    entries.get(session_id).map(|entry| *entry.value())
}

/// `dashmap::DashMap::insert`: sets the entry of a session and leaves all
/// others alone.
#[verifier::external_body]
pub(crate) fn put_entry(
    entries: &mut dashmap::DashMap<String, AffinityEntry, std::hash::RandomState>,
    session_id: String,
    entry: AffinityEntry,
)
    ensures
        sessions(*final(entries)) == sessions(*old(entries)).insert(session_id@, entry),
{
    entries.insert(session_id, entry);
}

/// `dashmap::DashMap::remove`: drops the entry of a session, if it has one, and
/// leaves all others alone.
#[verifier::external_body]
pub(crate) fn remove_entry(
    entries: &mut dashmap::DashMap<String, AffinityEntry, std::hash::RandomState>,
    session_id: &str,
)
    ensures
        sessions(*final(entries)) == sessions(*old(entries)).remove(session_id@),
{
    entries.remove(session_id);
}

/// Of `entries` those that have not expired at `now`.
pub open spec fn unexpired(entries: Map<Seq<char>, AffinityEntry>, now: u64) -> Map<
    Seq<char>,
    AffinityEntry,
> {
    entries.restrict(
        Set::new(
            |session_id: Seq<char>|
                entries.contains_key(session_id) && !entries[session_id].expired(now),
        ),
    )
}

/// `dashmap::DashMap::retain`: keeps the entries that its function tells it to,
/// here those that have not expired, and drops all others.
#[verifier::external_body]
pub(crate) fn retain_unexpired(
    entries: &mut dashmap::DashMap<String, AffinityEntry, std::hash::RandomState>,
    now: u64,
)
    ensures
        sessions(*final(entries)) == unexpired(sessions(*old(entries)), now),
{
    entries.retain(|_, entry| entry.stays(now));
}

/// `dashmap::DashMap::len`: how many entries there are.
#[verifier::external_body]
pub(crate) fn count_entries(
    entries: &dashmap::DashMap<String, AffinityEntry, std::hash::RandomState>,
) -> (r: usize)
    ensures
        r == sessions(*entries).len(),
{
    entries.len()
}

impl AffinityEntry {
    /// Whether the entry is kept at `now`.
    fn stays(&self, now: u64) -> (r: bool)
        ensures
            r == !self.expired(now),
    {
        !self.is_expired(now)
    }
}

/// An entry tells how many requests use it: those that were counted where it is
/// bound, and none while the worker is being chosen.
pub proof fn entries_tell_their_use(entry: AffinityEntry, now: u64)
    ensures
        entry is Bound ==> entry.leases() == entry->active_leases && entry.revision()
            == entry->Bound_revision && entry.pending() is None,
        entry is Initializing ==> entry.leases() == 0 && entry.revision()
            == entry->Initializing_revision && entry.pending() == entry->pending_replica,
        entry is Initializing ==> entry.at(now) == entry && !entry.expired(now),
        entry is Bound ==> (entry.expired(now) <==> entry->active_leases == 0
            && entry->idle_deadline <= now),
{
}

} // verus!
