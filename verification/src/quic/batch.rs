//! How a lane's writer fills a batch.
//!
//! The first receive waits as long as it takes. Further ones race a single
//! deadline. Without an interval a burst that is ready is taken and nothing is
//! waited for.

use vstd::prelude::*;

verus! {

/// A batch that is being filled.
#[derive(Clone, Copy, Debug)]
pub struct Batch {
    pub max_frames: usize,
    /// How long the batch waits for more frames, in nanoseconds.
    pub interval: u64,
    pub len: usize,
    /// When the first frames came, once they have.
    pub started_at: Option<u64>,
}

/// What to do next for a batch.
#[derive(Clone, Copy, Debug, PartialEq, Eq, Structural)]
pub enum BatchAction {
    /// Receive up to `limit` frames, until `deadline` where there is one. When
    /// both are ready the deadline wins.
    Receive { limit: usize, deadline: Option<u64> },
    /// Write the batch that began to fill at `started_at`.
    Write { started_at: u64 },
    /// There is nothing more to write.
    Finished,
}

impl Batch {
    /// There is room for a frame, and an empty batch has not begun.
    pub open spec fn wf(&self) -> bool {
        &&& self.max_frames > 0
        &&& self.len <= self.max_frames
        &&& self.started_at is Some <==> self.len > 0
        &&& self.started_at is Some ==> self.started_at->0 + self.interval <= u64::MAX
    }

    /// What an unfinished batch asks for.
    pub open spec fn next_action(&self) -> BatchAction {
        match self.started_at {
            None => BatchAction::Receive { limit: self.max_frames, deadline: None },
            Some(started_at) => if self.interval == 0 || self.len == self.max_frames {
                BatchAction::Write { started_at }
            } else {
                BatchAction::Receive {
                    limit: (self.max_frames - self.len) as usize,
                    deadline: Some((started_at + self.interval) as u64),
                }
            },
        }
    }

    fn action(&self) -> (r: BatchAction)
        requires
            self.wf(),
        ensures
            r == self.next_action(),
    {
        match self.started_at {
            None => BatchAction::Receive { limit: self.max_frames, deadline: None },
            Some(started_at) => {
                if self.interval == 0 || self.len == self.max_frames {
                    BatchAction::Write { started_at }
                } else {
                    BatchAction::Receive {
                        limit: self.max_frames - self.len,
                        deadline: Some(started_at + self.interval),
                    }
                }
            },
        }
    }

    /// An empty batch, and what to do first.
    pub fn begin(max_frames: usize, interval: u64) -> (r: (Self, BatchAction))
        requires
            max_frames > 0,
        ensures
            r.0.wf(),
            r.0 == (Batch { max_frames, interval, len: 0, started_at: None }),
            r.1 == (BatchAction::Receive { limit: max_frames, deadline: None }),
    {
        let batch = Batch { max_frames, interval, len: 0, started_at: None };
        (batch, BatchAction::Receive { limit: max_frames, deadline: None })
    }

    /// `count` frames were received at `now`. None at all means that the lane
    /// is closed: what there is, is written.
    pub fn received(&mut self, count: usize, now: u64) -> (r: BatchAction)
        requires
            old(self).wf(),
            count <= old(self).max_frames - old(self).len,
            now + old(self).interval <= u64::MAX,
        ensures
            final(self).wf(),
            count == 0 ==> *final(self) == *old(self) && r == match old(self).started_at {
                Some(started_at) => BatchAction::Write { started_at },
                None => BatchAction::Finished,
            },
            count > 0 ==> *final(self) == (Batch {
                len: (old(self).len + count) as usize,
                started_at: match old(self).started_at {
                    Some(started_at) => Some(started_at),
                    None => Some(now),
                },
                ..*old(self)
            }) && r == final(self).next_action(),
    {
        if count == 0 {
            return match self.started_at {
                Some(started_at) => BatchAction::Write { started_at },
                None => BatchAction::Finished,
            };
        }
        self.len = self.len + count;
        if self.started_at.is_none() {
            self.started_at = Some(now);
        }
        self.action()
    }

    /// The deadline has passed: what there is, is written.
    pub fn deadline_passed(&self) -> (r: BatchAction)
        requires
            self.wf(),
            self.len > 0,
        ensures
            r == (BatchAction::Write { started_at: self.started_at->0 }),
    {
        match self.started_at {
            Some(started_at) => BatchAction::Write { started_at },
            None => BatchAction::Finished,
        }
    }
}

/// A batch that has not begun waits for frames as long as it takes. One that has
/// is written when it is full, or at once where there is no interval, and else
/// takes what still fits until the interval since its first frame is over.
pub proof fn batches_are_filled_until_their_deadline(batch: Batch)
    requires
        batch.wf(),
    ensures
        batch.started_at is None ==> batch.next_action() == (BatchAction::Receive {
            limit: batch.max_frames,
            deadline: None,
        }),
        batch.started_at is Some && (batch.interval == 0 || batch.len == batch.max_frames)
            ==> batch.next_action() == (BatchAction::Write { started_at: batch.started_at->0 }),
        batch.started_at is Some && batch.interval > 0 && batch.len < batch.max_frames ==> {
            &&& batch.next_action() is Receive
            &&& batch.next_action()->limit + batch.len == batch.max_frames
            &&& batch.next_action()->deadline is Some
            &&& batch.next_action()->deadline->0 == batch.started_at->0 + batch.interval
        },
{
}

} // verus!
