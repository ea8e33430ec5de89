//! A response arrives whole and in order, however its lanes interleave.
//!
//! Frames on one lane keep their order, but nothing orders the frames of one
//! lane against those of another, and frames may come in between the steps of
//! delivering what was held back.

use crate::quic::deferred;
use crate::quic::deferred::DeferredView;
use crate::quic::frame;
use crate::quic::frame::{FrameKind, FrameView};
use crate::quic::response_slot;
use crate::quic::response_slot::{DrainOutcome, FrameOutcome, PendingView, Slot};
use crate::quic::sender;
use crate::quic::sender::{LaneChoice, SenderView};
use vstd::prelude::*;

verus! {

/// A response under way between a worker and a frontend.
#[verifier::ext_equal]
pub struct Run<P, A> {
    pub slot: Slot<P, A>,
    /// Frames on the way, first one first.
    pub priority_lane: Seq<FrameView>,
    pub ordered_lane: Seq<FrameView>,
    /// Payloads that the priority lane is busy delivering.
    pub in_hand: Seq<Seq<u8>>,
    /// Whether the priority lane is busy delivering.
    pub draining: bool,
    /// Payloads that the reader has got.
    pub delivered: Seq<Seq<u8>>,
    /// The response came to its end.
    pub closed: bool,
    /// Too much had to be held back.
    pub overflowed: bool,
    /// A frame was refused.
    pub refused: bool,
}

/// What happens next. A step that cannot happen changes nothing.
pub enum Step<A> {
    /// The next frame of the priority lane arrives.
    Priority { handle: A, now: u64 },
    /// The next frame of the ordered lane arrives.
    Ordered { handle: A, now: u64 },
    /// The priority lane delivers one payload that it has in hand.
    HandOver,
    /// The priority lane looks for more to deliver.
    Drain,
}

impl<P, A> Run<P, A> {
    pub open spec fn start(
        pending: PendingView<P>,
        priority_lane: Seq<FrameView>,
        ordered_lane: Seq<FrameView>,
    ) -> Self {
        Run {
            slot: Slot { pending: Some(pending), active: None },
            priority_lane,
            ordered_lane,
            in_hand: Seq::empty(),
            draining: false,
            delivered: Seq::empty(),
            closed: false,
            overflowed: false,
            refused: false,
        }
    }

    /// A frame of the response is processed.
    pub open spec fn arrive(
        self,
        frame: FrameView,
        bundle: u128,
        priority: bool,
        handle: A,
        now: u64,
    ) -> Self {
        let (slot, outcome) = response_slot::slot_step(self.slot, frame, bundle, priority);
        let next = Run { slot, ..self };
        match outcome {
            FrameOutcome::Open { pending } => Run {
                slot: Slot {
                    active: Some(
                        response_slot::opened(pending, handle, bundle, now, priority),
                    ),
                    ..slot
                },
                ..next
            },
            FrameOutcome::BeginDrain { first, .. } => Run {
                draining: true,
                in_hand: match first {
                    Some(payload) => seq![payload],
                    None => Seq::empty(),
                },
                ..next
            },
            FrameOutcome::Deferred => next,
            FrameOutcome::Deliver { payload } => Run {
                delivered: self.delivered.push(payload),
                ..next
            },
            FrameOutcome::Overflow { .. } => Run { overflowed: true, ..next },
            FrameOutcome::Close { .. } => Run { closed: true, ..next },
            FrameOutcome::Reset => Run { refused: true, ..next },
            FrameOutcome::Fail { .. } => Run { refused: true, ..next },
            FrameOutcome::Invalid { .. } => Run { refused: true, ..next },
        }
    }

    pub open spec fn step(self, step: Step<A>, bundle: u128, priority: bool) -> Self {
        if self.closed || self.overflowed || self.refused {
            self
        } else {
            match step {
                Step::Priority { handle, now } => if self.draining || self.priority_lane.len()
                    == 0 {
                    self
                } else {
                    Run { priority_lane: self.priority_lane.drop_first(), ..self }.arrive(
                        self.priority_lane[0],
                        bundle,
                        priority,
                        handle,
                        now,
                    )
                },
                Step::Ordered { handle, now } => if self.ordered_lane.len() == 0 {
                    self
                } else {
                    Run { ordered_lane: self.ordered_lane.drop_first(), ..self }.arrive(
                        self.ordered_lane[0],
                        bundle,
                        priority,
                        handle,
                        now,
                    )
                },
                Step::HandOver => if self.in_hand.len() == 0 {
                    self
                } else {
                    Run {
                        delivered: self.delivered.push(self.in_hand[0]),
                        in_hand: self.in_hand.drop_first(),
                        ..self
                    }
                },
                Step::Drain => if !self.draining || self.in_hand.len() != 0 {
                    self
                } else {
                    let (slot, outcome) = response_slot::drain_step(self.slot);
                    let next = Run { slot, ..self };
                    match outcome {
                        DrainOutcome::Gone => Run { draining: false, ..next },
                        DrainOutcome::Deliver { payloads } => Run { in_hand: payloads, ..next },
                        DrainOutcome::Ready => Run { draining: false, ..next },
                        DrainOutcome::Close { .. } => Run {
                            draining: false,
                            closed: true,
                            ..next
                        },
                    }
                },
            }
        }
    }

    pub open spec fn steps(self, steps: Seq<Step<A>>, bundle: u128, priority: bool) -> Self
        decreases steps.len(),
    {
        if steps.len() == 0 {
            self
        } else {
            self.steps(steps.drop_last(), bundle, priority).step(steps.last(), bundle, priority)
        }
    }
}

/// Whether all of `payloads` can be held back together.
pub open spec fn can_be_held(payloads: Seq<Seq<u8>>) -> bool {
    payloads.len() <= deferred::MAX_DEFERRED_RESPONSE_FRAMES && deferred::total_bytes(payloads)
        <= deferred::MAX_DEFERRED_RESPONSE_BYTES
}

proof fn lemma_total_bytes_concat(a: Seq<Seq<u8>>, b: Seq<Seq<u8>>)
    ensures
        deferred::total_bytes(a + b) == deferred::total_bytes(a) + deferred::total_bytes(b),
    decreases b.len(),
{
    if b.len() == 0 {
        assert(a + b =~= a);
    } else {
        lemma_total_bytes_concat(a, b.drop_last());
        assert((a + b).drop_last() =~= a + b.drop_last());
        assert((a + b).last() == b.last());
    }
}

/// Holding back part of what can be held back does not overflow.
proof fn lemma_no_overflow(
    before: Seq<Seq<u8>>,
    held: DeferredView,
    payload: Seq<u8>,
    after: Seq<Seq<u8>>,
)
    requires
        held.wf(),
        can_be_held(before + held.data + seq![payload] + after),
    ensures
        held.admits(payload.len()),
{
    lemma_total_bytes_concat(before + held.data + seq![payload], after);
    lemma_total_bytes_concat(before + held.data, seq![payload]);
    lemma_total_bytes_concat(before, held.data);
    reveal_with_fuel(deferred::total_bytes, 2);
    assert(seq![payload].drop_last() =~= Seq::empty());
}

/// What holds of a response with a priority lane between any two steps.
///
/// `sent` is how many frames have left the ordered lane.
spec fn in_order<P, A>(
    run: Run<P, A>,
    id: u128,
    bundle: u128,
    payloads: Seq<Seq<u8>>,
    sent: int,
) -> bool {
    let ordered = sender::ordered_part(id, payloads);
    let rest = if payloads.len() == 0 {
        payloads
    } else {
        payloads.drop_first()
    };
    let head = if payloads.len() == 0 {
        payloads
    } else {
        seq![payloads[0]]
    };
    let arrived = if sent <= rest.len() {
        rest.take(sent)
    } else {
        rest
    };
    let ended = sent > rest.len();
    &&& !run.refused
    &&& 0 <= sent <= ordered.len()
    &&& run.ordered_lane == ordered.skip(sent)
    &&& if run.overflowed {
        &&& !run.closed
        &&& !can_be_held(payloads)
        &&& (run.delivered + run.in_hand).len() <= payloads.len()
        &&& run.delivered + run.in_hand == payloads.take((run.delivered + run.in_hand).len() as int)
    } else if run.closed {
        run.delivered == payloads && run.in_hand.len() == 0
    } else {
        match run.slot.active {
            None => {
                &&& run.slot.pending is Some
                &&& run.priority_lane == sender::priority_part(id, payloads)
                &&& run.slot.pending->0.bundle_id is None || run.slot.pending->0.bundle_id == Some(
                    bundle,
                )
                &&& run.slot.pending->0.deferred.wf()
                &&& run.slot.pending->0.deferred.data == arrived
                &&& run.slot.pending->0.deferred.end == ended
                &&& run.delivered.len() == 0
                &&& run.in_hand.len() == 0
                &&& !run.draining
            },
            Some(active) => {
                &&& active.bundle_id == bundle
                &&& active.deferred.wf()
                &&& run.slot.pending is None
                &&& active.priority_draining == run.draining
                &&& if active.priority_ready {
                    &&& !run.draining
                    &&& run.priority_lane.len() == 0
                    &&& active.deferred.data.len() == 0
                    &&& !ended
                    &&& run.in_hand.len() == 0
                    &&& run.delivered == head + arrived
                } else if run.draining {
                    &&& run.priority_lane.len() == 0
                    &&& active.deferred.end == ended
                    &&& run.delivered + run.in_hand + active.deferred.data == head + arrived
                } else {
                    &&& run.priority_lane == seq![sender::priority_part(id, payloads)[1]]
                    &&& active.deferred.data == arrived
                    &&& active.deferred.end == ended
                    &&& run.delivered.len() == 0
                    &&& run.in_hand.len() == 0
                }
            },
        }
    }
}

proof fn lemma_in_order_step<P, A>(
    run: Run<P, A>,
    id: u128,
    bundle: u128,
    payloads: Seq<Seq<u8>>,
    sent: int,
    step: Step<A>,
) -> (next_sent: int)
    requires
        in_order(run, id, bundle, payloads, sent),
    ensures
        in_order(run.step(step, bundle, true), id, bundle, payloads, next_sent),
{
    let next = run.step(step, bundle, true);
    let ordered = sender::ordered_part(id, payloads);
    let rest = if payloads.len() == 0 {
        payloads
    } else {
        payloads.drop_first()
    };
    let head = if payloads.len() == 0 {
        payloads
    } else {
        seq![payloads[0]]
    };
    let arrived = if sent <= rest.len() {
        rest.take(sent)
    } else {
        rest
    };
    assert(head + rest =~= payloads);
    assert(ordered.len() == rest.len() + 1);
    if run.closed || run.overflowed || run.refused {
        return sent;
    }
    match step {
        Step::Ordered { .. } => {
            if run.ordered_lane.len() == 0 {
                return sent;
            }
            let frame = run.ordered_lane[0];
            assert(frame == ordered[sent]);
            assert(run.ordered_lane.drop_first() =~= ordered.skip(sent + 1));
            if sent < rest.len() {
                assert(frame == FrameView {
                    kind: FrameKind::Data,
                    registration_id: id,
                    payload: rest[sent],
                });
                assert(rest.take(sent + 1) =~= rest.take(sent).push(rest[sent]));
                assert(head + rest.take(sent + 1) =~= (head + rest.take(sent)).push(rest[sent]));
                let after = rest.skip(sent + 1);
                assert(payloads =~= (head + rest.take(sent)) + seq![rest[sent]] + after);
                match run.slot.active {
                    None => {
                        let held = run.slot.pending->0.deferred;
                        assert(payloads =~= head + held.data + seq![rest[sent]] + after);
                        if can_be_held(payloads) {
                            lemma_no_overflow(head, held, rest[sent], after);
                        }
                        if held.admits(rest[sent].len()) {
                            deferred::push_keeps_bounds(held, rest[sent]);
                        }
                    },
                    Some(active) => {
                        let held = active.deferred;
                        if !active.priority_ready {
                            let before = if run.draining {
                                run.delivered + run.in_hand
                            } else {
                                head
                            };
                            assert(payloads =~= before + held.data + seq![rest[sent]] + after);
                            if can_be_held(payloads) {
                                lemma_no_overflow(before, held, rest[sent], after);
                            }
                            if held.admits(rest[sent].len()) {
                                deferred::push_keeps_bounds(held, rest[sent]);
                            }
                        }
                    },
                }
                if next.overflowed {
                    lemma_prefix(run, head, rest, arrived, payloads);
                }
                if let Some(active) = run.slot.active {
                    if run.draining && !next.overflowed {
                        assert(run.delivered + run.in_hand + active.deferred.data.push(rest[sent])
                            =~= (run.delivered + run.in_hand + active.deferred.data).push(
                            rest[sent],
                        ));
                    }
                }
            } else {
                assert(frame == sender::bare(id, FrameKind::End));
                assert(rest.take(sent) =~= rest);
            }
            sent + 1
        },
        Step::Priority { .. } => {
            if run.draining || run.priority_lane.len() == 0 {
                return sent;
            }
            match run.slot.active {
                None => {
                    assert(run.priority_lane.drop_first() =~= seq![
                        sender::priority_part(id, payloads)[1],
                    ]);
                },
                Some(active) => {
                    assert(run.priority_lane.drop_first() =~= Seq::empty());
                    assert(next.delivered + next.in_hand + active.deferred.data =~= head + arrived);
                },
            }
            sent
        },
        Step::HandOver => {
            if run.in_hand.len() != 0 {
                let active = run.slot.active->0;
                assert(run.slot.active is Some);
                assert(next.delivered + next.in_hand =~= run.delivered + run.in_hand);
            }
            sent
        },
        Step::Drain => {
            if run.draining && run.in_hand.len() == 0 {
                let active = run.slot.active->0;
                assert(run.slot.active is Some);
                if active.deferred.data.len() != 0 {
                    assert(next.delivered + next.in_hand + next.slot.active->0.deferred.data
                        =~= run.delivered + run.in_hand + active.deferred.data);
                } else {
                    assert(run.delivered + run.in_hand + active.deferred.data =~= run.delivered);
                    if active.deferred.end {
                        assert(arrived == rest);
                    }
                }
            }
            sent
        },
    }
}

proof fn lemma_prefix<P, A>(
    run: Run<P, A>,
    head: Seq<Seq<u8>>,
    rest: Seq<Seq<u8>>,
    arrived: Seq<Seq<u8>>,
    payloads: Seq<Seq<u8>>,
)
    requires
        head + rest == payloads,
        arrived.len() <= rest.len(),
        arrived == rest.take(arrived.len() as int),
        run.slot.active is Some && run.draining ==> run.delivered + run.in_hand
            + run.slot.active->0.deferred.data == head + arrived,
        !(run.slot.active is Some && run.draining) ==> run.delivered.len() == 0
            && run.in_hand.len() == 0,
    ensures
        (run.delivered + run.in_hand).len() <= payloads.len(),
        run.delivered + run.in_hand == payloads.take((run.delivered + run.in_hand).len() as int),
{
    let got = run.delivered + run.in_hand;
    if run.slot.active is Some && run.draining {
        let all = got + run.slot.active->0.deferred.data;
        assert(all.take(got.len() as int) =~= got);
        assert(head + arrived =~= payloads.take((head.len() + arrived.len()) as int));
        assert(payloads.take((head.len() + arrived.len()) as int).take(got.len() as int)
            =~= payloads.take(got.len() as int));
    } else {
        assert(got =~= payloads.take(0));
    }
}

proof fn lemma_in_order_steps<P, A>(
    run: Run<P, A>,
    id: u128,
    bundle: u128,
    payloads: Seq<Seq<u8>>,
    steps: Seq<Step<A>>,
) -> (sent: int)
    requires
        in_order(run, id, bundle, payloads, 0),
    ensures
        in_order(run.steps(steps, bundle, true), id, bundle, payloads, sent),
    decreases steps.len(),
{
    if steps.len() == 0 {
        0
    } else {
        let before = lemma_in_order_steps(run, id, bundle, payloads, steps.drop_last());
        lemma_in_order_step(
            run.steps(steps.drop_last(), bundle, true),
            id,
            bundle,
            payloads,
            before,
            steps.last(),
        )
    }
}

/// Over a priority and an ordered lane, in whatever order frames and
/// deliveries take place, the reader gets a beginning of the response, in
/// order. No frame of the response is ever refused. A response that comes to
/// its end has been delivered whole, and it comes to its end once all its
/// frames have been dealt with, unless too much had to be held back. That
/// cannot happen to a response that can be held back altogether.
pub proof fn response_arrives_in_order<P, A>(
    pending: PendingView<P>,
    id: u128,
    bundle: u128,
    payloads: Seq<Seq<u8>>,
    steps: Seq<Step<A>>,
)
    requires
        pending.bundle_id is None,
        pending.deferred == DeferredView::empty(),
    ensures
        ({
            let end = Run::<P, A>::start(
                pending,
                sender::priority_part(id, payloads),
                sender::ordered_part(id, payloads),
            ).steps(steps, bundle, true);
            &&& !end.refused
            &&& end.delivered.len() <= payloads.len()
            &&& end.delivered == payloads.take(end.delivered.len() as int)
            &&& end.closed ==> end.delivered == payloads
            &&& end.overflowed ==> !can_be_held(payloads)
            &&& end.priority_lane.len() == 0 && end.ordered_lane.len() == 0 && !end.draining
                ==> end.closed || end.overflowed
        }),
{
    let start = Run::<P, A>::start(
        pending,
        sender::priority_part(id, payloads),
        sender::ordered_part(id, payloads),
    );
    let rest = if payloads.len() == 0 {
        payloads
    } else {
        payloads.drop_first()
    };
    let head = if payloads.len() == 0 {
        payloads
    } else {
        seq![payloads[0]]
    };
    assert(rest.take(0) =~= Seq::empty());
    assert(sender::ordered_part(id, payloads).skip(0) =~= sender::ordered_part(id, payloads));
    assert(in_order(start, id, bundle, payloads, 0));
    let sent = lemma_in_order_steps(start, id, bundle, payloads, steps);
    let end = start.steps(steps, bundle, true);
    assert(head + rest =~= payloads);
    let arrived = if sent <= rest.len() {
        rest.take(sent)
    } else {
        rest
    };
    assert(rest.take(rest.len() as int) =~= rest);
    assert(head + arrived =~= payloads.take((head.len() + arrived.len()) as int));
    let got = end.delivered;
    if end.overflowed {
        assert((end.delivered + end.in_hand).take(got.len() as int) =~= got);
        assert(payloads.take((end.delivered + end.in_hand).len() as int).take(got.len() as int)
            =~= payloads.take(got.len() as int));
    } else if end.closed {
        assert(payloads.take(payloads.len() as int) =~= payloads);
    } else {
        match end.slot.active {
            None => {
                assert(got =~= payloads.take(0));
            },
            Some(active) => {
                if active.priority_ready {
                } else if end.draining {
                    let all = end.delivered + end.in_hand + active.deferred.data;
                    assert(all.take(got.len() as int) =~= got);
                    assert(all.take(got.len() as int) =~= payloads.take(got.len() as int));
                } else {
                    assert(got =~= payloads.take(0));
                }
            },
        }
    }
}

/// Everything that a response sends when there is no priority lane.
pub open spec fn single_lane(id: u128, payloads: Seq<Seq<u8>>) -> Seq<FrameView> {
    seq![sender::bare(id, FrameKind::Prologue)] + sender::bulk(id, payloads).push(
        sender::bare(id, FrameKind::End),
    )
}

/// What holds of a response on a single lane once `sent` frames have arrived.
spec fn in_order_on_one_lane<P, A>(
    run: Run<P, A>,
    id: u128,
    bundle: u128,
    payloads: Seq<Seq<u8>>,
    sent: int,
) -> bool {
    let frames = single_lane(id, payloads);
    &&& !run.refused
    &&& !run.overflowed
    &&& !run.draining
    &&& run.in_hand.len() == 0
    &&& run.priority_lane.len() == 0
    &&& 0 <= sent <= frames.len()
    &&& run.ordered_lane == frames.skip(sent)
    &&& run.closed == (sent == frames.len())
    &&& if sent == 0 {
        &&& run.slot.active is None
        &&& run.slot.pending is Some
        &&& run.slot.pending->0.bundle_id is None
        &&& run.delivered.len() == 0
    } else if run.closed {
        run.delivered == payloads
    } else {
        &&& run.slot.active is Some
        &&& run.slot.active->0.bundle_id == bundle
        &&& run.slot.active->0.priority_ready
        &&& run.delivered == payloads.take(sent - 1)
    }
}

proof fn lemma_one_lane_steps<P, A>(
    run: Run<P, A>,
    id: u128,
    bundle: u128,
    payloads: Seq<Seq<u8>>,
    steps: Seq<Step<A>>,
) -> (sent: int)
    requires
        in_order_on_one_lane(run, id, bundle, payloads, 0),
    ensures
        in_order_on_one_lane(run.steps(steps, bundle, false), id, bundle, payloads, sent),
    decreases steps.len(),
{
    if steps.len() == 0 {
        0
    } else {
        let sent = lemma_one_lane_steps(run, id, bundle, payloads, steps.drop_last());
        let before = run.steps(steps.drop_last(), bundle, false);
        let after = before.step(steps.last(), bundle, false);
        assert(run.steps(steps, bundle, false) == after);
        let frames = single_lane(id, payloads);
        assert(frames.len() == payloads.len() + 2);
        if before.closed {
            return sent;
        }
        match steps.last() {
            Step::Ordered { .. } => {
                assert(before.ordered_lane.len() == frames.len() - sent);
                assert(before.ordered_lane[0] == frames[sent]);
                assert(before.ordered_lane.drop_first() =~= frames.skip(sent + 1));
                if sent == 0 {
                    assert(before.delivered =~= payloads.take(0));
                    assert(frames[0] == sender::bare(id, FrameKind::Prologue));
                } else if sent - 1 < payloads.len() {
                    assert(frames[sent] == FrameView {
                        kind: FrameKind::Data,
                        registration_id: id,
                        payload: payloads[sent - 1],
                    });
                    assert(payloads.take(sent) =~= payloads.take(sent - 1).push(
                        payloads[sent - 1],
                    ));
                } else {
                    assert(frames[sent] == sender::bare(id, FrameKind::End));
                    assert(payloads.take(payloads.len() as int) =~= payloads);
                }
                assert(in_order_on_one_lane(after, id, bundle, payloads, sent + 1));
                sent + 1
            },
            _ => {
                assert(after == before);
                sent
            },
        }
    }
}

/// On a single lane the reader gets a beginning of the response, in order, and
/// all of it once every frame has arrived.
pub proof fn response_arrives_in_order_on_one_lane<P, A>(
    pending: PendingView<P>,
    id: u128,
    bundle: u128,
    payloads: Seq<Seq<u8>>,
    steps: Seq<Step<A>>,
)
    requires
        pending.bundle_id is None,
    ensures
        ({
            let end = Run::<P, A>::start(pending, Seq::empty(), single_lane(id, payloads)).steps(
                steps,
                bundle,
                false,
            );
            &&& !end.refused && !end.overflowed
            &&& end.delivered.len() <= payloads.len()
            &&& end.delivered == payloads.take(end.delivered.len() as int)
            &&& end.closed <==> end.ordered_lane.len() == 0
            &&& end.closed ==> end.delivered == payloads
        }),
{
    let start = Run::<P, A>::start(pending, Seq::empty(), single_lane(id, payloads));
    assert(single_lane(id, payloads).skip(0) =~= single_lane(id, payloads));
    let sent = lemma_one_lane_steps(start, id, bundle, payloads, steps);
    assert(payloads.take(payloads.len() as int) =~= payloads);
    assert(payloads.take(0) =~= Seq::empty());
    let end = start.steps(steps, bundle, false);
    if sent == 0 {
        assert(end.delivered =~= payloads.take(0));
    }
}

/// The frames that a lane carries over the wire and that are read at its end.
pub open spec fn carried(frames: Seq<FrameView>) -> Seq<FrameView> {
    frame::frames_of(frame::wire_of(frames))
}

proof fn lemma_carried(frames: Seq<FrameView>)
    requires
        forall|i: int| 0 <= i < frames.len() ==> (#[trigger] frames[i]).fits(),
    ensures
        carried(frames) == frames,
{
    frame::stream_round_trip(frames, Seq::empty());
    assert(frame::wire_of(frames) + Seq::<u8>::empty() =~= frame::wire_of(frames));
    assert(frame::frames_of(Seq::empty()) =~= Seq::empty());
    assert(frames + Seq::<FrameView>::empty() =~= frames);
}

/// What the worker sends is what the reader gets, in order: from the calls that
/// send a response, over both lanes and the wire, to the reader, in whatever
/// order frames and deliveries take place.
pub proof fn reader_gets_what_the_worker_sends<P, A>(
    pending: PendingView<P>,
    id: u128,
    bundle: u128,
    payloads: Seq<Seq<u8>>,
    steps: Seq<Step<A>>,
)
    requires
        pending.bundle_id is None,
        pending.deferred == DeferredView::empty(),
        forall|i: int|
            0 <= i < payloads.len() ==> (#[trigger] payloads[i]).len()
                <= frame::MAX_FRAME_PAYLOAD,
    ensures
        ({
            let sent = sender::response_frames(SenderView::fresh(id, true), payloads);
            let end = Run::<P, A>::start(
                pending,
                carried(sender::on_lane(sent, LaneChoice::Priority)),
                carried(sender::on_lane(sent, LaneChoice::Ordered)),
            ).steps(steps, bundle, true);
            &&& !end.refused
            &&& end.delivered.len() <= payloads.len()
            &&& end.delivered == payloads.take(end.delivered.len() as int)
            &&& end.closed ==> end.delivered == payloads
            &&& end.overflowed ==> !can_be_held(payloads)
            &&& end.priority_lane.len() == 0 && end.ordered_lane.len() == 0 && !end.draining
                ==> end.closed || end.overflowed
        }),
{
    sender::response_fills_lanes(id, payloads);
    let priority = sender::priority_part(id, payloads);
    let ordered = sender::ordered_part(id, payloads);
    assert forall|i: int| 0 <= i < priority.len() implies (#[trigger] priority[i]).fits() by {}
    assert forall|i: int| 0 <= i < ordered.len() implies (#[trigger] ordered[i]).fits() by {
        if i < ordered.len() - 1 {
            assert(ordered[i].payload == payloads[i + 1]);
        }
    }
    lemma_carried(priority);
    lemma_carried(ordered);
    response_arrives_in_order::<P, A>(pending, id, bundle, payloads, steps);
}

} // verus!
