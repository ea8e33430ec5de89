//! The bounded queue in front of a lane's writer.
//!
//! Urgent frames overtake the others. Each of the two kinds has room of its own,
//! so a queue full of payloads never holds up the opening of a response. While
//! the writer is busy it is not woken for each frame.

use crate::quic::frame;
use crate::quic::frame::Frame;
use vstd::prelude::*;

verus! {

/// The frames of each kind that a lane's queue holds.
pub const LANE_QUEUE_CAPACITY: usize = 512;

/// `crossbeam_queue::SegQueue`, an unbounded queue, first in, first out.
#[verifier::external_type_specification]
#[verifier::external_body]
#[verifier::reject_recursive_types(T)]
pub struct ExSegQueue<T>(crossbeam_queue::SegQueue<T>);

/// What a queue holds, first one first.
pub uninterp spec fn queued(queue: crossbeam_queue::SegQueue<Frame>) -> Seq<Frame>;

/// `crossbeam_queue::SegQueue::new`: an empty queue.
#[verifier::external_body]
fn new_queue() -> (r: crossbeam_queue::SegQueue<Frame>)
    ensures
        queued(r) == Seq::<Frame>::empty(),
{
    crossbeam_queue::SegQueue::new()
}

/// `crossbeam_queue::SegQueue::push`: appends at the back.
#[verifier::external_body]
fn push_back(queue: &mut crossbeam_queue::SegQueue<Frame>, frame: Frame)
    ensures
        queued(*final(queue)) == queued(*old(queue)).push(frame),
{
    queue.push(frame);
}

/// `crossbeam_queue::SegQueue::pop`: takes the front, if there is one.
#[verifier::external_body]
fn pop_front(queue: &mut crossbeam_queue::SegQueue<Frame>) -> (r: Option<Frame>)
    ensures
        match r {
            Some(frame) => queued(*old(queue)).len() > 0 && frame == queued(*old(queue))[0]
                && queued(*final(queue)) == queued(*old(queue)).drop_first(),
            None => queued(*old(queue)).len() == 0 && queued(*final(queue)) == queued(*old(queue)),
        },
{
    queue.pop()
}

/// The queue of one lane, shared by its senders and its writer.
pub struct CoalescingLaneQueue {
    urgent_frames: crossbeam_queue::SegQueue<Frame>,
    frames: crossbeam_queue::SegQueue<Frame>,
    urgent_slots: usize,
    slots: usize,
    capacity: usize,
    scheduled: bool,
    closed: bool,
    senders: usize,
}

#[verifier::ext_equal]
pub struct LaneView {
    pub urgent: Seq<Frame>,
    pub normal: Seq<Frame>,
    /// The frames of each kind that the queue holds at most.
    pub capacity: nat,
    /// Whether the writer has been woken and has not gone idle since.
    pub scheduled: bool,
    /// Whether no more frames are taken.
    pub closed: bool,
    pub senders: nat,
}

/// Why a frame was not queued. The frame comes back.
#[derive(Debug)]
pub enum LaneTrySendError {
    Closed(Frame),
    Full(Frame),
}

/// What became of an attempt to receive.
#[derive(Clone, Copy, Debug, PartialEq, Eq, Structural)]
pub enum RecvStep {
    /// So many frames were appended to the batch.
    Received { count: usize },
    /// No frame is left, and none will come.
    Closed,
    /// The queue is empty: wait to be woken, then try again.
    Wait,
}

pub open spec fn at_most(limit: nat, len: nat) -> nat {
    if limit < len {
        limit
    } else {
        len
    }
}

impl LaneView {
    /// Neither kind exceeds the capacity.
    pub open spec fn wf(self) -> bool {
        self.urgent.len() <= self.capacity && self.normal.len() <= self.capacity
    }

    pub open spec fn fresh(capacity: nat) -> Self {
        LaneView {
            urgent: Seq::empty(),
            normal: Seq::empty(),
            capacity,
            scheduled: false,
            closed: false,
            senders: 1,
        }
    }

    /// Whether there is no room for a frame of this urgency.
    pub open spec fn is_full(self, urgent: bool) -> bool {
        if urgent {
            self.urgent.len() == self.capacity
        } else {
            self.normal.len() == self.capacity
        }
    }

    pub open spec fn queued(self, frame: Frame) -> Self {
        if frame::urgent_kind(frame.kind) {
            LaneView { urgent: self.urgent.push(frame), scheduled: true, ..self }
        } else {
            LaneView { normal: self.normal.push(frame), scheduled: true, ..self }
        }
    }

    /// How many urgent frames leave when up to `limit` frames do.
    pub open spec fn urgent_share(self, limit: nat) -> nat {
        at_most(limit, self.urgent.len())
    }

    /// How many other frames leave when up to `limit` frames do.
    pub open spec fn normal_share(self, limit: nat) -> nat {
        at_most((limit - self.urgent_share(limit)) as nat, self.normal.len())
    }

    /// The frames that leave when up to `limit` do.
    pub open spec fn front(self, limit: nat) -> Seq<Frame> {
        self.urgent.take(self.urgent_share(limit) as int) + self.normal.take(
            self.normal_share(limit) as int,
        )
    }

    pub open spec fn drained(self, limit: nat) -> Self {
        LaneView {
            urgent: self.urgent.skip(self.urgent_share(limit) as int),
            normal: self.normal.skip(self.normal_share(limit) as int),
            ..self
        }
    }
}

impl View for CoalescingLaneQueue {
    type V = LaneView;

    closed spec fn view(&self) -> LaneView {
        LaneView {
            urgent: queued(self.urgent_frames),
            normal: queued(self.frames),
            capacity: self.capacity as nat,
            scheduled: self.scheduled,
            closed: self.closed,
            senders: self.senders as nat,
        }
    }
}

impl CoalescingLaneQueue {
    /// The slots that are not taken are counted right.
    pub closed spec fn wf(&self) -> bool {
        &&& self@.wf()
        &&& self.urgent_slots + self@.urgent.len() == self.capacity
        &&& self.slots + self@.normal.len() == self.capacity
    }

    /// The queue never holds more frames of a kind than it has room for.
    pub proof fn capacity_is_kept(&self)
        requires
            self.wf(),
        ensures
            self@.urgent.len() <= self@.capacity,
            self@.normal.len() <= self@.capacity,
    {
    }

    pub fn new(capacity: usize) -> (r: Self)
        ensures
            r.wf(),
            r@ == LaneView::fresh(capacity as nat),
    {
        CoalescingLaneQueue {
            urgent_frames: new_queue(),
            frames: new_queue(),
            urgent_slots: capacity,
            slots: capacity,
            capacity,
            scheduled: false,
            closed: false,
            senders: 1,
        }
    }

    /// Queues `frame`, and says whether the writer has to be woken.
    pub fn try_send(&mut self, frame: Frame) -> (r: Result<bool, LaneTrySendError>)
        requires
            old(self).wf(),
        ensures
            final(self).wf(),
            match r {
                Ok(wake) => {
                    &&& !old(self)@.closed && !old(self)@.is_full(frame::urgent_kind(frame.kind))
                    &&& wake == !old(self)@.scheduled
                    &&& final(self)@ == old(self)@.queued(frame)
                },
                Err(LaneTrySendError::Closed(back)) => old(self)@.closed && back == frame
                    && final(self)@ == old(self)@,
                Err(LaneTrySendError::Full(back)) => !old(self)@.closed && old(self)@.is_full(
                    frame::urgent_kind(frame.kind),
                ) && back == frame && final(self)@ == old(self)@,
            },
    {
        if self.closed {
            return Err(LaneTrySendError::Closed(frame));
        }
        if frame.is_urgent() {
            if self.urgent_slots == 0 {
                return Err(LaneTrySendError::Full(frame));
            }
            self.urgent_slots = self.urgent_slots - 1;
            push_back(&mut self.urgent_frames, frame);
        } else {
            if self.slots == 0 {
                return Err(LaneTrySendError::Full(frame));
            }
            self.slots = self.slots - 1;
            push_back(&mut self.frames, frame);
        }
        let wake = !self.scheduled;
        self.scheduled = true;
        Ok(wake)
    }

    /// Moves up to `limit` frames to the end of `batch`, the urgent ones first.
    pub fn drain(&mut self, batch: &mut Vec<Frame>, limit: usize) -> (r: usize)
        requires
            old(self).wf(),
            old(batch)@.len() + limit <= usize::MAX,
        ensures
            final(self).wf(),
            final(self)@ == old(self)@.drained(limit as nat),
            final(batch)@ == old(batch)@ + old(self)@.front(limit as nat),
            r == old(self)@.front(limit as nat).len(),
    {
        let ghost before = self@;
        let ghost start = batch@;
        let mut urgent_count: usize = 0;
        let mut more = true;
        assert(start + before.urgent.take(0) =~= start);
        assert(before.urgent.skip(0) =~= before.urgent);
        while more && urgent_count < limit
            invariant
                urgent_count <= limit,
                urgent_count <= before.urgent.len(),
                batch@ == start + before.urgent.take(urgent_count as int),
                self@ == (LaneView { urgent: before.urgent.skip(urgent_count as int), ..before }),
                before.wf(),
                !more ==> urgent_count == before.urgent.len(),
                self.urgent_slots + before.urgent.len() == self.capacity,
                self.slots + before.normal.len() == self.capacity,
                self.capacity == before.capacity,
            decreases limit - urgent_count, (if more { 1int } else { 0int }),
        {
            match pop_front(&mut self.urgent_frames) {
                Some(frame) => {
                    batch.push(frame);
                    proof {
                        let k = urgent_count as int;
                        assert(before.urgent.skip(k).drop_first() =~= before.urgent.skip(k + 1));
                        assert(before.urgent.take(k + 1) =~= before.urgent.take(k).push(frame));
                        assert((start + before.urgent.take(k)).push(frame) =~= start
                            + before.urgent.take(k + 1));
                    }
                    urgent_count += 1;
                },
                None => {
                    more = false;
                },
            }
        }
        assert(urgent_count == before.urgent_share(limit as nat));
        let ghost half = batch@;
        let room: usize = limit - urgent_count;
        let mut normal_count: usize = 0;
        let mut more = true;
        assert(half + before.normal.take(0) =~= half);
        assert(before.normal.skip(0) =~= before.normal);
        while more && normal_count < room
            invariant
                normal_count <= room,
                normal_count <= before.normal.len(),
                batch@ == half + before.normal.take(normal_count as int),
                self@ == (LaneView {
                    urgent: before.urgent.skip(urgent_count as int),
                    normal: before.normal.skip(normal_count as int),
                    ..before
                }),
                before.wf(),
                !more ==> normal_count == before.normal.len(),
                urgent_count <= before.urgent.len(),
                self.urgent_slots + before.urgent.len() == self.capacity,
                self.slots + before.normal.len() == self.capacity,
                self.capacity == before.capacity,
            decreases room - normal_count, (if more { 1int } else { 0int }),
        {
            match pop_front(&mut self.frames) {
                Some(frame) => {
                    batch.push(frame);
                    proof {
                        let k = normal_count as int;
                        assert(before.normal.skip(k).drop_first() =~= before.normal.skip(k + 1));
                        assert(before.normal.take(k + 1) =~= before.normal.take(k).push(frame));
                        assert((half + before.normal.take(k)).push(frame) =~= half
                            + before.normal.take(k + 1));
                    }
                    normal_count += 1;
                },
                None => {
                    more = false;
                },
            }
        }
        self.urgent_slots = self.urgent_slots + urgent_count;
        self.slots = self.slots + normal_count;
        assert(batch@ =~= start + before.front(limit as nat));
        urgent_count + normal_count
    }

    /// Receives up to `limit` frames, or says why there are none.
    pub fn recv_many(&mut self, batch: &mut Vec<Frame>, limit: usize) -> (r: RecvStep)
        requires
            old(self).wf(),
            limit > 0,
            old(batch)@.len() + limit <= usize::MAX,
        ensures
            final(self).wf(),
            final(batch)@ == old(batch)@ + old(self)@.front(limit as nat),
            ({
                let count = old(self)@.front(limit as nat).len();
                if count != 0 {
                    &&& r is Received && r->count == count
                    &&& final(self)@ == old(self)@.drained(limit as nat)
                } else if old(self)@.closed {
                    &&& r == RecvStep::Closed
                    &&& final(self)@ == old(self)@
                } else {
                    &&& r == RecvStep::Wait
                    &&& final(self)@ == (LaneView { scheduled: false, ..old(self)@ })
                }
            }),
    {
        let count: usize = self.drain(batch, limit);
        if count != 0 {
            return RecvStep::Received { count };
        }
        proof {
            assert(self@.urgent =~= old(self)@.urgent);
            assert(self@.normal =~= old(self)@.normal);
        }
        if self.closed {
            return RecvStep::Closed;
        }
        self.scheduled = false;
        RecvStep::Wait
    }

    /// Takes no more frames. Those in the queue can still be received.
    pub fn close_sender(&mut self)
        requires
            old(self).wf(),
        ensures
            final(self).wf(),
            final(self)@ == (LaneView { closed: true, ..old(self)@ }),
    {
        self.closed = true;
    }

    /// Takes no more frames and discards those in the queue.
    pub fn close_receiver(&mut self)
        requires
            old(self).wf(),
        ensures
            final(self).wf(),
            final(self)@ == (LaneView {
                closed: true,
                urgent: Seq::empty(),
                normal: Seq::empty(),
                ..old(self)@
            }),
    {
        self.closed = true;
        self.urgent_frames = new_queue();
        self.frames = new_queue();
        self.urgent_slots = self.capacity;
        self.slots = self.capacity;
    }

    /// How many senders there are.
    pub fn sender_count(&self) -> (r: usize)
        ensures
            r == self@.senders,
    {
        self.senders
    }

    /// Counts one more sender.
    pub fn clone_sender(&mut self)
        requires
            old(self).wf(),
            old(self)@.senders < usize::MAX,
        ensures
            final(self).wf(),
            final(self)@ == (LaneView { senders: old(self)@.senders + 1, ..old(self)@ }),
    {
        self.senders = self.senders + 1;
    }

    /// Counts one sender less. The last one closes the queue.
    pub fn drop_sender(&mut self)
        requires
            old(self).wf(),
            old(self)@.senders > 0,
        ensures
            final(self).wf(),
            final(self)@ == (LaneView {
                senders: (old(self)@.senders - 1) as nat,
                closed: old(self)@.closed || old(self)@.senders == 1,
                ..old(self)@
            }),
    {
        self.senders = self.senders - 1;
        if self.senders == 0 {
            self.close_sender();
        }
    }
}

/// Draining loses nothing and keeps the order of each kind: what leaves and
/// what stays are together what was there.
pub proof fn drain_keeps_every_frame(lane: LaneView, limit: nat)
    ensures
        lane.urgent == lane.front(limit).take(lane.urgent_share(limit) as int) + lane.drained(
            limit,
        ).urgent,
        lane.normal == lane.front(limit).skip(lane.urgent_share(limit) as int) + lane.drained(
            limit,
        ).normal,
        lane.front(limit).len() == at_most(limit, lane.urgent.len() + lane.normal.len()),
{
    assert(lane.urgent =~= lane.front(limit).take(lane.urgent_share(limit) as int) + lane.drained(
        limit,
    ).urgent);
    assert(lane.normal =~= lane.front(limit).skip(lane.urgent_share(limit) as int) + lane.drained(
        limit,
    ).normal);
}

/// An urgent frame finds room however many others are waiting, and is among
/// the first to leave.
pub proof fn urgent_frames_overtake(lane: LaneView, frame: Frame)
    requires
        frame::urgent_kind(frame.kind),
        lane.urgent.len() == 0,
        lane.capacity > 0,
    ensures
        !lane.is_full(true),
        lane.queued(frame).front(1) == seq![frame],
{
    assert(lane.queued(frame).front(1) =~= seq![frame]);
}

/// A frame is queued behind those of its urgency, finds no room just if as many
/// of these wait as the queue holds, and wakes the writer. Frames of the other
/// urgency do not matter to it.
pub proof fn frames_queue_by_urgency(lane: LaneView, frame: Frame)
    ensures
        ({
            let urgent = frame.kind == frame::FrameKind::Prologue || frame.kind
                == frame::FrameKind::Error || frame.kind == frame::FrameKind::FirstData
                || frame.kind == frame::FrameKind::PriorityEnd;
            let after = lane.queued(frame);
            &&& urgent ==> after.urgent == lane.urgent.push(frame) && after.normal == lane.normal
            &&& !urgent ==> after.normal == lane.normal.push(frame) && after.urgent == lane.urgent
            &&& after.scheduled
            &&& after.capacity == lane.capacity && after.closed == lane.closed && after.senders
                == lane.senders
        }),
        lane.is_full(true) <==> lane.urgent.len() == lane.capacity,
        lane.is_full(false) <==> lane.normal.len() == lane.capacity,
{
}

/// Up to so many frames leave as are asked for: all urgent ones first, as far
/// as they go, and then the others, each kind in the order in which it came. The
/// rest stays.
pub proof fn frames_leave_in_order(lane: LaneView, limit: nat, i: int)
    ensures
        ({
            let out = lane.front(limit);
            let left = lane.drained(limit);
            let u = lane.urgent.len();
            let n = lane.normal.len();
            &&& limit >= u + n ==> out.len() == u + n && left.urgent.len() == 0
                && left.normal.len() == 0
            &&& limit < u + n ==> out.len() == limit
            &&& 0 <= i < out.len() && i < u ==> out[i] == lane.urgent[i]
            &&& u <= i < out.len() ==> out[i] == lane.normal[i - u]
            &&& limit <= u ==> left.urgent == lane.urgent.skip(limit as int) && left.normal
                == lane.normal
            &&& u < limit <= u + n ==> left.urgent.len() == 0 && left.normal == lane.normal.skip(
                limit - u,
            )
            &&& left.capacity == lane.capacity && left.closed == lane.closed && left.senders
                == lane.senders && left.scheduled == lane.scheduled
        }),
{
    assert(lane.normal.skip(0) =~= lane.normal);
}

/// A new queue is empty, open and has one sender.
pub proof fn queues_start_empty(capacity: nat)
    ensures
        LaneView::fresh(capacity).urgent.len() == 0,
        LaneView::fresh(capacity).normal.len() == 0,
        LaneView::fresh(capacity).capacity == capacity,
        !LaneView::fresh(capacity).closed,
        !LaneView::fresh(capacity).scheduled,
        LaneView::fresh(capacity).senders == 1,
{
}

} // verus!
