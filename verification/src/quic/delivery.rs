//! Delivering what a frame has released to the reader of its response.
//!
//! The frame that carries the first payload also releases what was held back.
//! More may be held back while that is delivered, so it goes on until nothing
//! is left.

use crate::quic::deferred;
use crate::quic::response_slot;
use crate::quic::response_slot::{DrainOutcome, Slot};
use crate::quic::server_state::{DrainAction, Removed, ServerModel, ServerState};
use std::collections::VecDeque;
use vstd::prelude::*;

verus! {

/// Payloads on their way to the reader of a response.
#[derive(Debug)]
pub struct DeliveryTask {
    id: u128,
    queue: VecDeque<Vec<u8>>,
    drains: bool,
}

#[verifier::ext_equal]
pub struct TaskView {
    pub id: u128,
    /// What is to be delivered, first one first.
    pub queue: Seq<Seq<u8>>,
    /// Whether to look for more that was held back.
    pub drains: bool,
}

impl View for DeliveryTask {
    type V = TaskView;

    closed spec fn view(&self) -> TaskView {
        TaskView {
            id: self.id,
            queue: deferred::contents(self.queue@),
            drains: self.drains,
        }
    }
}

/// What to do next.
pub enum DeliveryStep<P, A> {
    /// Deliver the payload, waiting for room if there is none.
    Deliver { payload: Vec<u8> },
    /// Nobody reads the response: answer that it is not wanted.
    Reset,
    /// All is delivered.
    Finished,
    /// All is delivered and the response is over.
    Close { removed: Removed<P, A> },
}

pub enum DeliveryOutcome<P, A> {
    Deliver { payload: Seq<u8> },
    Reset,
    Finished,
    Close { removed: Slot<P, A> },
}

pub open spec fn delivery_outcome<P, A>(step: DeliveryStep<P, A>) -> DeliveryOutcome<P, A> {
    match step {
        DeliveryStep::Deliver { payload } => DeliveryOutcome::Deliver { payload: payload@ },
        DeliveryStep::Reset => DeliveryOutcome::Reset,
        DeliveryStep::Finished => DeliveryOutcome::Finished,
        DeliveryStep::Close { removed } => DeliveryOutcome::Close { removed: removed@ },
    }
}

impl TaskView {
    /// How a task goes on after the last delivery did or did not succeed.
    pub open spec fn step<P, A>(self, table: ServerModel<P, A>, delivered: bool) -> (
        TaskView,
        ServerModel<P, A>,
        DeliveryOutcome<P, A>,
    ) {
        let empty = TaskView { queue: Seq::empty(), ..self };
        if !delivered {
            (self, table, DeliveryOutcome::Reset)
        } else if self.queue.len() > 0 {
            (
                TaskView { queue: self.queue.drop_first(), ..self },
                table,
                DeliveryOutcome::Deliver { payload: self.queue[0] },
            )
        } else if !self.drains {
            (self, table, DeliveryOutcome::Finished)
        } else {
            let after = table.after_drain(self.id);
            match response_slot::drain_step(table.slot(self.id)).1 {
                DrainOutcome::Deliver { payloads } => (
                    TaskView { queue: payloads.drop_first(), ..self },
                    after,
                    DeliveryOutcome::Deliver { payload: payloads[0] },
                ),
                DrainOutcome::Gone => (empty, after, DeliveryOutcome::Finished),
                DrainOutcome::Ready => (empty, after, DeliveryOutcome::Finished),
                DrainOutcome::Close { removed } => (
                    empty,
                    after,
                    DeliveryOutcome::Close { removed },
                ),
            }
        }
    }
}

impl DeliveryTask {
    /// A single payload of a response that holds nothing back.
    pub fn single(id: u128, payload: Vec<u8>) -> (r: Self)
        ensures
            r@ == (TaskView { id, queue: seq![payload@], drains: false }),
    {
        let mut queue: VecDeque<Vec<u8>> = VecDeque::new();
        queue.push_back(payload);
        let r = DeliveryTask { id, queue, drains: false };
        assert(r@.queue =~= seq![payload@]);
        r
    }

    /// The first payload of a response, if it has one, and then all that was
    /// held back.
    pub fn first_and_held_back(id: u128, first: Option<Vec<u8>>) -> (r: Self)
        ensures
            r@ == (TaskView {
                id,
                queue: match first {
                    Some(payload) => seq![payload@],
                    None => Seq::empty(),
                },
                drains: true,
            }),
    {
        let mut queue: VecDeque<Vec<u8>> = VecDeque::new();
        match first {
            Some(payload) => {
                queue.push_back(payload);
                assert(deferred::contents(queue@) =~= seq![payload@]);
            },
            None => {
                assert(deferred::contents(queue@) =~= Seq::empty());
            },
        }
        DeliveryTask { id, queue, drains: true }
    }

    /// Says what to do next. `delivered` tells whether the last delivery
    /// succeeded; it is true the first time. A task is done with once it does
    /// not ask for a delivery.
    pub fn next<P, A>(&mut self, table: &mut ServerState<P, A>, delivered: bool) -> (r:
        DeliveryStep<P, A>)
        requires
            old(table).wf(),
        ensures
            final(table).wf(),
            (final(self)@, final(table)@, delivery_outcome(r)) == old(self)@.step(
                old(table)@,
                delivered,
            ),
    {
        if !delivered {
            return DeliveryStep::Reset;
        }
        if let Some(payload) = self.queue.pop_front() {
            assert(self@.queue =~= old(self)@.queue.drop_first());
            return DeliveryStep::Deliver { payload };
        }
        assert(self@.queue =~= Seq::empty());
        if !self.drains {
            return DeliveryStep::Finished;
        }
        match table.drain_deferred_response(self.id) {
            DrainAction::Gone => DeliveryStep::Finished,
            DrainAction::Ready => DeliveryStep::Finished,
            DrainAction::Close { removed } => DeliveryStep::Close { removed },
            DrainAction::Deliver { payloads } => {
                let ghost all = deferred::contents(payloads@);
                self.queue = payloads;
                match self.queue.pop_front() {
                    Some(payload) => {
                        assert(payload@ == all[0]);
                        assert(self@.queue =~= all.drop_first());
                        DeliveryStep::Deliver { payload }
                    },
                    None => DeliveryStep::Finished,
                }
            },
        }
    }
}

/// A task delivers its payloads in order, one for each step, and then what was
/// held back, in order too. It ends when nothing is left, and stops at once when
/// a delivery fails.
pub proof fn tasks_deliver_in_order<P, A>(
    task: TaskView,
    table: ServerModel<P, A>,
    delivered: bool,
)
    ensures
        ({
            let (after, table_after, outcome) = task.step(table, delivered);
            let held = table.slot(task.id).active->0.deferred;
            let known = table.slot(task.id).active is Some;
            let done = delivered && task.queue.len() == 0;
            &&& after.id == task.id
            &&& after.drains == task.drains
            &&& !delivered ==> outcome is Reset && table_after == table
            &&& delivered && task.queue.len() > 0 ==> {
                &&& outcome == DeliveryOutcome::<P, A>::Deliver { payload: task.queue[0] }
                &&& after.queue == task.queue.skip(1)
                &&& table_after == table
            }
            &&& done && !task.drains ==> outcome is Finished && table_after == table
            &&& done && task.drains && !known ==> outcome is Finished && after.queue.len() == 0
            &&& done && task.drains && known && held.data.len() > 0 ==> {
                &&& outcome == DeliveryOutcome::<P, A>::Deliver { payload: held.data[0] }
                &&& after.queue == held.data.skip(1)
                &&& table_after.slot(task.id).active is Some
                &&& table_after.slot(task.id).active->0.deferred.data.len() == 0
            }
            &&& done && task.drains && known && held.data.len() == 0 && held.end ==> outcome
                is Close && after.queue.len() == 0 && table_after.slot(task.id).active is None
            &&& done && task.drains && known && held.data.len() == 0 && !held.end ==> outcome
                is Finished && after.queue.len() == 0 && table_after.slot(task.id).active is Some
                && table_after.slot(task.id).active->0.priority_ready
        }),
{
    assert(task.queue.len() > 0 ==> task.queue.drop_first() =~= task.queue.skip(1));
    if table.slot(task.id).active is Some {
        let data = table.slot(task.id).active->0.deferred.data;
        assert(data.len() > 0 ==> data.drop_first() =~= data.skip(1));
    }
}

/// What a task asks for is what its step led to.
pub proof fn steps_are_their_outcomes<P, A>(step: DeliveryStep<P, A>)
    ensures
        match step {
            DeliveryStep::Deliver { payload } => delivery_outcome(step) is Deliver
                && delivery_outcome(step)->payload == payload@,
            DeliveryStep::Reset => delivery_outcome(step) is Reset,
            DeliveryStep::Finished => delivery_outcome(step) is Finished,
            DeliveryStep::Close { removed } => delivery_outcome(step) is Close
                && delivery_outcome(step)->removed == removed@,
        },
{
}

} // verus!
