//! Counts over the connections of the response transport.

use crate::seqs;
use vstd::prelude::*;

verus! {

/// The counts of one connection, or of several together.
#[derive(Clone, Copy, Debug, PartialEq, Eq, Structural)]
pub struct TransportStats {
    pub udp_tx: u64,
    pub udp_rx: u64,
    pub lost_packets: u64,
    pub lost_bytes: u64,
    pub congestion_events: u64,
    pub stream_data_blocked: u64,
    pub rtt_us: u64,
}

/// What the gauges show.
#[derive(Clone, Copy, Debug, PartialEq, Eq, Structural)]
pub struct TransportGauges {
    pub udp_tx: i64,
    pub udp_rx: i64,
    pub lost_packets: i64,
    pub lost_bytes: i64,
    pub congestion_events: i64,
    pub stream_data_blocked: i64,
    pub rtt_us: i64,
}

pub open spec fn gauge(value: int) -> i64 {
    if value > i64::MAX {
        i64::MAX
    } else {
        value as i64
    }
}

/// The number, or the largest that a gauge can show.
pub fn as_i64(value: u64) -> (r: i64)
    ensures
        r == gauge(value as int),
{
    if value > i64::MAX as u64 {
        i64::MAX
    } else {
        value as i64
    }
}

/// The sum of what `count` tells of each connection.
pub open spec fn sum(stats: Seq<TransportStats>, count: spec_fn(TransportStats) -> nat) -> nat
    decreases stats.len(),
{
    if stats.len() == 0 {
        0
    } else {
        sum(stats.drop_last(), count) + count(stats.last())
    }
}

/// The gauges over some connections.
pub open spec fn gauges_of(stats: Seq<TransportStats>) -> TransportGauges {
    TransportGauges {
        udp_tx: gauge(sum(stats, |s: TransportStats| s.udp_tx as nat) as int),
        udp_rx: gauge(sum(stats, |s: TransportStats| s.udp_rx as nat) as int),
        lost_packets: gauge(sum(stats, |s: TransportStats| s.lost_packets as nat) as int),
        lost_bytes: gauge(sum(stats, |s: TransportStats| s.lost_bytes as nat) as int),
        congestion_events: gauge(sum(stats, |s: TransportStats| s.congestion_events as nat) as int),
        stream_data_blocked: gauge(
            sum(stats, |s: TransportStats| s.stream_data_blocked as nat) as int,
        ),
        rtt_us: gauge(sum(stats, |s: TransportStats| s.rtt_us as nat) as int),
    }
}

pub open spec fn capped(value: nat) -> u64 {
    if value > u64::MAX {
        u64::MAX
    } else {
        value as u64
    }
}

/// What the gauges are to show for the open connections.
pub fn update_transport_stats(stats: &[TransportStats]) -> (r: TransportGauges)
    ensures
        r == gauges_of(stats@),
{
    let ghost tx = |s: TransportStats| s.udp_tx as nat;
    let ghost rx = |s: TransportStats| s.udp_rx as nat;
    let ghost packets = |s: TransportStats| s.lost_packets as nat;
    let ghost bytes = |s: TransportStats| s.lost_bytes as nat;
    let ghost events = |s: TransportStats| s.congestion_events as nat;
    let ghost blocked = |s: TransportStats| s.stream_data_blocked as nat;
    let ghost rtt = |s: TransportStats| s.rtt_us as nat;
    let mut udp_tx: u64 = 0;
    let mut udp_rx: u64 = 0;
    let mut lost_packets: u64 = 0;
    let mut lost_bytes: u64 = 0;
    let mut congestion_events: u64 = 0;
    let mut stream_data_blocked: u64 = 0;
    let mut rtt_us: u64 = 0;
    let mut i: usize = 0;
    while i < stats.len()
        invariant
            i <= stats@.len(),
            tx == (|s: TransportStats| s.udp_tx as nat),
            rx == (|s: TransportStats| s.udp_rx as nat),
            packets == (|s: TransportStats| s.lost_packets as nat),
            bytes == (|s: TransportStats| s.lost_bytes as nat),
            events == (|s: TransportStats| s.congestion_events as nat),
            blocked == (|s: TransportStats| s.stream_data_blocked as nat),
            rtt == (|s: TransportStats| s.rtt_us as nat),
            udp_tx == capped(sum(stats@.take(i as int), tx)),
            udp_rx == capped(sum(stats@.take(i as int), rx)),
            lost_packets == capped(sum(stats@.take(i as int), packets)),
            lost_bytes == capped(sum(stats@.take(i as int), bytes)),
            congestion_events == capped(sum(stats@.take(i as int), events)),
            stream_data_blocked == capped(sum(stats@.take(i as int), blocked)),
            rtt_us == capped(sum(stats@.take(i as int), rtt)),
        decreases stats@.len() - i,
    {
        let s = stats[i];
        proof {
            assert(stats@.take(i + 1).drop_last() =~= stats@.take(i as int));
            assert(stats@.take(i + 1).last() == s);
        }
        udp_tx = udp_tx.saturating_add(s.udp_tx);
        udp_rx = udp_rx.saturating_add(s.udp_rx);
        lost_packets = lost_packets.saturating_add(s.lost_packets);
        lost_bytes = lost_bytes.saturating_add(s.lost_bytes);
        congestion_events = congestion_events.saturating_add(s.congestion_events);
        stream_data_blocked = stream_data_blocked.saturating_add(s.stream_data_blocked);
        rtt_us = rtt_us.saturating_add(s.rtt_us);
        i += 1;
    }
    assert(stats@.take(stats@.len() as int) =~= stats@);
    TransportGauges {
        udp_tx: as_i64(udp_tx),
        udp_rx: as_i64(udp_rx),
        lost_packets: as_i64(lost_packets),
        lost_bytes: as_i64(lost_bytes),
        congestion_events: as_i64(congestion_events),
        stream_data_blocked: as_i64(stream_data_blocked),
        rtt_us: as_i64(rtt_us),
    }
}

/// The connections whose counts are shown, oldest first, by their ids.
pub struct TrackedConnections {
    ids: Vec<usize>,
}

/// Tells ids other than `id`.
pub open spec fn other_than(id: usize) -> spec_fn(usize) -> bool {
    |other: usize| other != id
}

impl View for TrackedConnections {
    type V = Seq<usize>;

    closed spec fn view(&self) -> Seq<usize> {
        self.ids@
    }
}

impl TrackedConnections {
    pub fn new() -> (r: Self)
        ensures
            r@ == Seq::<usize>::empty(),
    {
        TrackedConnections { ids: Vec::new() }
    }

    pub fn track_connection(&mut self, id: usize)
        ensures
            final(self)@ == old(self)@.push(id),
    {
        self.ids.push(id);
    }

    /// A connection has been closed.
    pub fn connection_closed(&mut self, id: usize)
        ensures
            final(self)@ == old(self)@.filter(other_than(id)),
            !final(self)@.contains(id),
    {
        let mut kept: Vec<usize> = Vec::new();
        let mut i: usize = 0;
        proof {
            reveal(Seq::filter);
            assert(self.ids@.take(0) =~= Seq::empty());
        }
        while i < self.ids.len()
            invariant
                *self == *old(self),
                i <= self.ids@.len(),
                kept@ == self.ids@.take(i as int).filter(other_than(id)),
            decreases self.ids@.len() - i,
        {
            proof {
                reveal(Seq::filter);
                assert(self.ids@.take(i + 1).drop_last() =~= self.ids@.take(i as int));
            }
            if self.ids[i] != id {
                kept.push(self.ids[i]);
            }
            i += 1;
        }
        proof {
            assert(self.ids@.take(self.ids@.len() as int) =~= self.ids@);
            seqs::lemma_filter_member(self.ids@, other_than(id), id);
        }
        self.ids = kept;
    }

    pub fn is_connection_tracked(&self, connection_id: usize) -> (r: bool)
        ensures
            r == self@.contains(connection_id),
    {
        let mut i: usize = 0;
        while i < self.ids.len()
            invariant
                i <= self.ids@.len(),
                forall|j: int| 0 <= j < i ==> self.ids@[j] != connection_id,
            decreases self.ids@.len() - i,
        {
            if self.ids[i] == connection_id {
                assert(self.ids@[i as int] == connection_id);
                return true;
            }
            i += 1;
        }
        false
    }
}

/// The registries that already have the metrics.
pub struct Registrations {
    known: Vec<usize>,
}

impl View for Registrations {
    type V = Seq<usize>;

    closed spec fn view(&self) -> Seq<usize> {
        self.known@
    }
}

/// Tells the registries that are still there.
pub open spec fn among(living: Seq<usize>) -> spec_fn(usize) -> bool {
    |registry: usize| living.contains(registry)
}

fn contains_id(ids: &[usize], id: usize) -> (r: bool)
    ensures
        r == ids@.contains(id),
{
    let mut i: usize = 0;
    while i < ids.len()
        invariant
            i <= ids@.len(),
            forall|j: int| 0 <= j < i ==> ids@[j] != id,
        decreases ids@.len() - i,
    {
        if ids[i] == id {
            return true;
        }
        i += 1;
    }
    false
}

impl Registrations {
    pub fn new() -> (r: Self)
        ensures
            r@ == Seq::<usize>::empty(),
    {
        Registrations { known: Vec::new() }
    }

    /// Notes a registry, and says whether the metrics have to be added to it.
    /// Registries that are not among `living` any more are forgotten first, so
    /// that their place in memory can be taken by another.
    pub fn ensure_registered(&mut self, registry: usize, living: &[usize]) -> (r: bool)
        ensures
            ({
                let kept = old(self)@.filter(among(living@));
                &&& r == !kept.contains(registry)
                &&& final(self)@ == if r {
                    kept.push(registry)
                } else {
                    kept
                }
            }),
            final(self)@.contains(registry),
    {
        let mut kept: Vec<usize> = Vec::new();
        let mut i: usize = 0;
        proof {
            reveal(Seq::filter);
            assert(self.known@.take(0) =~= Seq::empty());
        }
        while i < self.known.len()
            invariant
                *self == *old(self),
                i <= self.known@.len(),
                kept@ == self.known@.take(i as int).filter(among(living@)),
            decreases self.known@.len() - i,
        {
            proof {
                reveal(Seq::filter);
                assert(self.known@.take(i + 1).drop_last() =~= self.known@.take(i as int));
            }
            if contains_id(living, self.known[i]) {
                kept.push(self.known[i]);
            }
            i += 1;
        }
        assert(self.known@.take(self.known@.len() as int) =~= self.known@);
        let missing = !contains_id(kept.as_slice(), registry);
        if missing {
            proof {
                seqs::lemma_push_member(kept@, registry, registry);
            }
            kept.push(registry);
        }
        self.known = kept;
        missing
    }
}

/// The registry is noted once, however often it is asked for, as long as it is
/// there.
pub proof fn registry_is_noted_once(known: Seq<usize>, registry: usize, living: Seq<usize>)
    requires
        known.contains(registry),
        living.contains(registry),
    ensures
        known.filter(among(living)).contains(registry),
{
    seqs::lemma_filter_member(known, among(living), registry);
}

/// A sum over some connections and one more is the sum over all of them.
pub proof fn counts_add_up(
    stats: Seq<TransportStats>,
    more: TransportStats,
    count: spec_fn(TransportStats) -> nat,
)
    ensures
        sum(Seq::empty(), count) == 0,
        sum(stats.push(more), count) == sum(stats, count) + count(more),
{
    assert(stats.push(more).drop_last() =~= stats);
}

/// Each gauge shows the sum of its own count over all connections, or the largest
/// number that it can show.
pub proof fn gauges_show_their_sums(stats: Seq<TransportStats>)
    ensures
        ({
            let gauges = gauges_of(stats);
            &&& shows(gauges.udp_tx, sum(stats, |s: TransportStats| s.udp_tx as nat))
            &&& shows(gauges.udp_rx, sum(stats, |s: TransportStats| s.udp_rx as nat))
            &&& shows(gauges.lost_packets, sum(stats, |s: TransportStats| s.lost_packets as nat))
            &&& shows(gauges.lost_bytes, sum(stats, |s: TransportStats| s.lost_bytes as nat))
            &&& shows(
                gauges.congestion_events,
                sum(stats, |s: TransportStats| s.congestion_events as nat),
            )
            &&& shows(
                gauges.stream_data_blocked,
                sum(stats, |s: TransportStats| s.stream_data_blocked as nat),
            )
            &&& shows(gauges.rtt_us, sum(stats, |s: TransportStats| s.rtt_us as nat))
        }),
{
}

/// Whether a gauge shows a number as far as it can.
pub open spec fn shows(value: i64, number: nat) -> bool {
    if number <= i64::MAX {
        value == number
    } else {
        value == i64::MAX
    }
}

/// A connection that is closed is not shown any more, and the others are, in the
/// order in which they came. A registry that is gone is forgotten, and no other.
pub proof fn only_what_is_gone_is_forgotten(
    ids: Seq<usize>,
    id: usize,
    other: usize,
    living: Seq<usize>,
)
    ensures
        !ids.filter(other_than(id)).contains(id),
        other != id ==> (ids.filter(other_than(id)).contains(other) <==> ids.contains(other)),
        ids.filter(among(living)).contains(other) <==> ids.contains(other) && living.contains(
            other,
        ),
{
    seqs::lemma_filter_member(ids, other_than(id), id);
    seqs::lemma_filter_member(ids, other_than(id), other);
    seqs::lemma_filter_member(ids, among(living), other);
}

} // verus!
