//! The worker's end of one response: which frames it sends, and on which lane.

use crate::quic::frame::{Frame, FrameKind, FrameView, MAX_FRAME_PAYLOAD};
use vstd::slice::slice_to_vec;
use vstd::prelude::*;

verus! {

/// The lane that a frame goes to.
#[derive(Clone, Copy, Debug, PartialEq, Eq, Structural)]
pub enum LaneChoice {
    /// The lane that all responses have.
    Ordered,
    /// The lane for prologues and first payloads, where there is one.
    Priority,
}

/// A frame and the lane that it goes to.
pub struct Outgoing {
    pub frame: Frame,
    pub lane: LaneChoice,
}

#[verifier::ext_equal]
pub struct OutgoingView {
    pub frame: FrameView,
    pub lane: LaneChoice,
}

impl View for Outgoing {
    type V = OutgoingView;

    open spec fn view(&self) -> OutgoingView {
        OutgoingView { frame: self.frame@, lane: self.lane }
    }
}

/// Why a response cannot be sent.
#[derive(Clone, Copy, Debug, PartialEq, Eq, Structural)]
pub enum SendError {
    PrologueAlreadySent,
    NotOpen,
    PayloadTooLarge { len: usize },
}

/// The worker's end of one response.
#[derive(Debug)]
pub struct QuicResponseSender {
    registration_id: u128,
    has_priority_lane: bool,
    prologue_sent: bool,
    terminated: bool,
    first_data_sent: bool,
}

#[verifier::ext_equal]
pub struct SenderView {
    pub registration_id: u128,
    pub has_priority_lane: bool,
    pub prologue_sent: bool,
    pub terminated: bool,
    pub first_data_sent: bool,
}

impl View for QuicResponseSender {
    type V = SenderView;

    closed spec fn view(&self) -> SenderView {
        SenderView {
            registration_id: self.registration_id,
            has_priority_lane: self.has_priority_lane,
            prologue_sent: self.prologue_sent,
            terminated: self.terminated,
            first_data_sent: self.first_data_sent,
        }
    }
}

impl SenderView {
    pub open spec fn fresh(registration_id: u128, has_priority_lane: bool) -> Self {
        SenderView {
            registration_id,
            has_priority_lane,
            prologue_sent: false,
            terminated: false,
            first_data_sent: false,
        }
    }

    /// Whether payloads may be sent.
    pub open spec fn is_open(self) -> bool {
        self.prologue_sent && !self.terminated
    }

    pub open spec fn outgoing(self, kind: FrameKind, payload: Seq<u8>, lane: LaneChoice) -> OutgoingView {
        OutgoingView {
            frame: FrameView { kind, registration_id: self.registration_id, payload },
            lane,
        }
    }

    /// The lane of the first frames.
    pub open spec fn first_lane(self) -> LaneChoice {
        if self.has_priority_lane {
            LaneChoice::Priority
        } else {
            LaneChoice::Ordered
        }
    }

    /// The frame that opens the response, or reports that it failed.
    pub open spec fn prologue(self, error: Option<Seq<u8>>) -> OutgoingView {
        match error {
            Some(message) => self.outgoing(FrameKind::Error, message, self.first_lane()),
            None => self.outgoing(FrameKind::Prologue, Seq::empty(), self.first_lane()),
        }
    }

    pub open spec fn opened(self, failed: bool) -> Self {
        SenderView { prologue_sent: true, terminated: self.terminated || failed, ..self }
    }

    /// The frame that carries the next payload.
    pub open spec fn data(self, payload: Seq<u8>) -> OutgoingView {
        if self.has_priority_lane && !self.first_data_sent {
            self.outgoing(FrameKind::FirstData, payload, LaneChoice::Priority)
        } else {
            self.outgoing(FrameKind::Data, payload, LaneChoice::Ordered)
        }
    }

    pub open spec fn after_data(self) -> Self {
        SenderView { first_data_sent: true, ..self }
    }

    /// The frames that end the response.
    pub open spec fn closing(self) -> Seq<OutgoingView> {
        let end = self.outgoing(FrameKind::End, Seq::empty(), LaneChoice::Ordered);
        if !self.is_open() {
            Seq::empty()
        } else if self.has_priority_lane && !self.first_data_sent {
            seq![
                self.outgoing(FrameKind::PriorityEnd, Seq::empty(), LaneChoice::Priority),
                end,
            ]
        } else {
            seq![end]
        }
    }
}

/// The views of outgoing frames.
pub open spec fn outgoing_views(frames: Seq<Outgoing>) -> Seq<OutgoingView> {
    frames.map_values(|out: Outgoing| out@)
}

/// Whether each of the frames was made at `now` and has the label of its kind.
pub open spec fn all_made_at(frames: Seq<Outgoing>, now: u64) -> bool {
    forall|i: int| 0 <= i < frames.len() ==> (#[trigger] frames[i]).frame.made_at(now)
}

/// What is left to do when a sender goes away.
pub struct Abandonment {
    /// The response never began: nothing more will be heard of it.
    pub forget: bool,
    /// The frames that still have to be sent, in this order.
    pub frames: Vec<Outgoing>,
}

impl QuicResponseSender {
    pub fn new(registration_id: u128, has_priority_lane: bool) -> (r: Self)
        ensures
            r@ == SenderView::fresh(registration_id, has_priority_lane),
    {
        QuicResponseSender {
            registration_id,
            has_priority_lane,
            prologue_sent: false,
            terminated: false,
            first_data_sent: false,
        }
    }

    /// The frame that opens the response, or that reports `error` instead.
    ///
    /// `prologue_enqueued` is to be called once the lane has taken the frame.
    pub fn send_prologue(&self, error: Option<String>, now: u64) -> (r: Result<Outgoing, SendError>)
        ensures
            self@.prologue_sent ==> r == Err::<Outgoing, SendError>(SendError::PrologueAlreadySent),
            !self@.prologue_sent ==> match error {
                Some(message) => {
                    let bytes = vstd::utf8::encode_utf8(message@);
                    if bytes.len() > MAX_FRAME_PAYLOAD {
                        r is Err && r->Err_0 is PayloadTooLarge && r->Err_0->len == bytes.len()
                    } else {
                        r is Ok && r->Ok_0@ == self@.prologue(Some(bytes))
                            && r->Ok_0.frame.made_at(now)
                    }
                },
                None => r is Ok && r->Ok_0@ == self@.prologue(None) && r->Ok_0.frame.made_at(now),
            },
    {
        if self.prologue_sent {
            return Err(SendError::PrologueAlreadySent);
        }
        let lane = if self.has_priority_lane {
            LaneChoice::Priority
        } else {
            LaneChoice::Ordered
        };
        match error {
            Some(message) => {
                let payload: Vec<u8> = slice_to_vec(message.as_str().as_bytes());
                if payload.len() > MAX_FRAME_PAYLOAD {
                    return Err(SendError::PayloadTooLarge { len: payload.len() });
                }
                let frame = Frame::new(FrameKind::Error, self.registration_id, payload, now);
                Ok(Outgoing { frame, lane })
            },
            None => {
                let payload: Vec<u8> = Vec::new();
                assert(payload@ =~= Seq::empty());
                let frame = Frame::new(FrameKind::Prologue, self.registration_id, payload, now);
                Ok(Outgoing { frame, lane })
            },
        }
    }

    /// Notes that the lane has taken the frame that opens the response, or
    /// that reports its failure.
    pub fn prologue_enqueued(&mut self, failed: bool)
        ensures
            final(self)@ == old(self)@.opened(failed),
    {
        self.prologue_sent = true;
        if failed {
            self.terminated = true;
        }
    }

    /// The frame that carries `payload`.
    pub fn send(&mut self, payload: Vec<u8>, now: u64) -> (r: Result<Outgoing, SendError>)
        ensures
            !old(self)@.is_open() ==> r == Err::<Outgoing, SendError>(SendError::NotOpen)
                && final(self)@ == old(self)@,
            old(self)@.is_open() ==> final(self)@ == old(self)@.after_data() && if payload@.len()
                > MAX_FRAME_PAYLOAD {
                r is Err && r->Err_0 is PayloadTooLarge && r->Err_0->len == payload@.len()
            } else {
                r is Ok && r->Ok_0@ == old(self)@.data(payload@) && r->Ok_0.frame.made_at(now)
            },
    {
        if !self.prologue_sent || self.terminated {
            return Err(SendError::NotOpen);
        }
        let urgent = !self.first_data_sent && self.has_priority_lane;
        self.first_data_sent = true;
        if payload.len() > MAX_FRAME_PAYLOAD {
            return Err(SendError::PayloadTooLarge { len: payload.len() });
        }
        if urgent {
            let frame = Frame::new(FrameKind::FirstData, self.registration_id, payload, now);
            Ok(Outgoing { frame, lane: LaneChoice::Priority })
        } else {
            let frame = Frame::new(FrameKind::Data, self.registration_id, payload, now);
            Ok(Outgoing { frame, lane: LaneChoice::Ordered })
        }
    }

    /// The frames that end the response, in the order in which they are sent.
    ///
    /// `end_enqueued` is to be called once the lanes have taken them all.
    pub fn finish(&self, now: u64) -> (r: Vec<Outgoing>)
        ensures
            outgoing_views(r@) == self@.closing(),
            all_made_at(r@, now),
    {
        let mut frames: Vec<Outgoing> = Vec::new();
        if !self.prologue_sent || self.terminated {
            assert(outgoing_views(frames@) =~= self@.closing());
            return frames;
        }
        if self.has_priority_lane && !self.first_data_sent {
            let payload: Vec<u8> = Vec::new();
            assert(payload@ =~= Seq::empty());
            let frame = Frame::new(FrameKind::PriorityEnd, self.registration_id, payload, now);
            frames.push(Outgoing { frame, lane: LaneChoice::Priority });
        }
        let payload: Vec<u8> = Vec::new();
        assert(payload@ =~= Seq::empty());
        let frame = Frame::new(FrameKind::End, self.registration_id, payload, now);
        frames.push(Outgoing { frame, lane: LaneChoice::Ordered });
        assert(outgoing_views(frames@) =~= self@.closing());
        frames
    }

    /// Notes that the lanes have taken the frames that end the response.
    pub fn end_enqueued(&mut self)
        requires
            old(self)@.is_open(),
        ensures
            final(self)@ == (SenderView { terminated: true, ..old(self)@ }),
    {
        self.terminated = true;
    }

    /// What is left to do when the sender goes away without more ado.
    pub fn abandon(self, now: u64) -> (r: Abandonment)
        ensures
            r.forget == !self@.prologue_sent,
            outgoing_views(r.frames@) == self@.closing(),
            all_made_at(r.frames@, now),
    {
        Abandonment { forget: !self.prologue_sent, frames: self.finish(now) }
    }
}

/// The frames that a lane gets out of `frames`, in order.
pub open spec fn on_lane(frames: Seq<OutgoingView>, lane: LaneChoice) -> Seq<FrameView>
    decreases frames.len(),
{
    if frames.len() == 0 {
        Seq::empty()
    } else if frames.last().lane == lane {
        on_lane(frames.drop_last(), lane).push(frames.last().frame)
    } else {
        on_lane(frames.drop_last(), lane)
    }
}

/// The frames of a whole response with these payloads, opened, sent one by one
/// and finished.
pub open spec fn response_frames(sender: SenderView, payloads: Seq<Seq<u8>>) -> Seq<OutgoingView> {
    let open = sender.opened(false);
    let (frames, last) = data_frames(open, payloads);
    seq![sender.prologue(None)] + frames + last.closing()
}

/// The frames for `payloads`, sent one by one, and the sender afterwards.
pub open spec fn data_frames(sender: SenderView, payloads: Seq<Seq<u8>>) -> (
    Seq<OutgoingView>,
    SenderView,
)
    decreases payloads.len(),
{
    if payloads.len() == 0 {
        (Seq::empty(), sender)
    } else {
        let (frames, before) = data_frames(sender, payloads.drop_last());
        (frames.push(before.data(payloads.last())), before.after_data())
    }
}

/// `Data` frames for `payloads`.
pub open spec fn bulk(id: u128, payloads: Seq<Seq<u8>>) -> Seq<FrameView> {
    payloads.map_values(
        |payload: Seq<u8>|
            FrameView { kind: FrameKind::Data, registration_id: id, payload },
    )
}

pub open spec fn bare(id: u128, kind: FrameKind) -> FrameView {
    FrameView { kind, registration_id: id, payload: Seq::empty() }
}

/// What a response puts on the ordered lane when there is a priority lane.
pub open spec fn ordered_part(id: u128, payloads: Seq<Seq<u8>>) -> Seq<FrameView> {
    let rest = if payloads.len() == 0 {
        payloads
    } else {
        payloads.drop_first()
    };
    bulk(id, rest).push(bare(id, FrameKind::End))
}

/// What a response puts on the priority lane.
pub open spec fn priority_part(id: u128, payloads: Seq<Seq<u8>>) -> Seq<FrameView> {
    seq![
        bare(id, FrameKind::Prologue),
        if payloads.len() == 0 {
            bare(id, FrameKind::PriorityEnd)
        } else {
            FrameView { kind: FrameKind::FirstData, registration_id: id, payload: payloads[0] }
        },
    ]
}

proof fn lemma_data_frames(sender: SenderView, payloads: Seq<Seq<u8>>)
    requires
        sender.is_open(),
        !sender.first_data_sent,
    ensures
        data_frames(sender, payloads).1 == if payloads.len() == 0 {
            sender
        } else {
            sender.after_data()
        },
        sender.has_priority_lane ==> {
            &&& on_lane(data_frames(sender, payloads).0, LaneChoice::Ordered) == bulk(
                sender.registration_id,
                if payloads.len() == 0 {
                    payloads
                } else {
                    payloads.drop_first()
                },
            )
            &&& on_lane(data_frames(sender, payloads).0, LaneChoice::Priority) == if payloads.len()
                == 0 {
                Seq::empty()
            } else {
                seq![sender.data(payloads[0]).frame]
            }
        },
        !sender.has_priority_lane ==> {
            &&& on_lane(data_frames(sender, payloads).0, LaneChoice::Ordered) == bulk(
                sender.registration_id,
                payloads,
            )
            &&& on_lane(data_frames(sender, payloads).0, LaneChoice::Priority) == Seq::<
                FrameView,
            >::empty()
        },
    decreases payloads.len(),
{
    let id = sender.registration_id;
    if payloads.len() == 0 {
        assert(bulk(id, payloads) =~= Seq::empty());
    } else {
        let shorter = payloads.drop_last();
        lemma_data_frames(sender, shorter);
        let (frames, before) = data_frames(sender, shorter);
        let all = data_frames(sender, payloads).0;
        assert(all.drop_last() =~= frames);
        assert(all.last() == before.data(payloads.last()));
        if sender.has_priority_lane {
            if shorter.len() == 0 {
                assert(payloads.drop_first() =~= Seq::empty());
                assert(bulk(id, payloads.drop_first()) =~= Seq::empty());
                assert(on_lane(all, LaneChoice::Priority) =~= seq![sender.data(payloads[0]).frame]);
            } else {
                assert(payloads.drop_first() =~= shorter.drop_first().push(payloads.last()));
                assert(bulk(id, payloads.drop_first()) =~= bulk(id, shorter.drop_first()).push(
                    all.last().frame,
                ));
                assert(shorter[0] == payloads[0]);
            }
        } else {
            assert(bulk(id, payloads) =~= bulk(id, shorter).push(all.last().frame));
        }
    }
}

proof fn lemma_on_lane_concat(a: Seq<OutgoingView>, b: Seq<OutgoingView>, lane: LaneChoice)
    ensures
        on_lane(a + b, lane) == on_lane(a, lane) + on_lane(b, lane),
    decreases b.len(),
{
    if b.len() == 0 {
        assert(a + b =~= a);
        assert(on_lane(a, lane) + on_lane(b, lane) =~= on_lane(a, lane));
    } else {
        lemma_on_lane_concat(a, b.drop_last(), lane);
        assert((a + b).drop_last() =~= a + b.drop_last());
        assert((a + b).last() == b.last());
        assert(on_lane(a + b, lane) =~= on_lane(a, lane) + on_lane(b, lane));
    }
}

/// With a priority lane, a response opens and sends its first payload there,
/// and everything else, in order, on the ordered lane. Without one everything
/// is on the ordered lane.
pub proof fn response_fills_lanes(id: u128, payloads: Seq<Seq<u8>>)
    ensures
        on_lane(response_frames(SenderView::fresh(id, true), payloads), LaneChoice::Priority)
            == priority_part(id, payloads),
        on_lane(response_frames(SenderView::fresh(id, true), payloads), LaneChoice::Ordered)
            == ordered_part(id, payloads),
        on_lane(response_frames(SenderView::fresh(id, false), payloads), LaneChoice::Priority)
            == Seq::<FrameView>::empty(),
        on_lane(response_frames(SenderView::fresh(id, false), payloads), LaneChoice::Ordered) == seq![
            bare(id, FrameKind::Prologue),
        ] + bulk(id, payloads).push(bare(id, FrameKind::End)),
{
    lemma_response_lanes(id, true, payloads, LaneChoice::Priority);
    lemma_response_lanes(id, true, payloads, LaneChoice::Ordered);
    lemma_response_lanes(id, false, payloads, LaneChoice::Priority);
    lemma_response_lanes(id, false, payloads, LaneChoice::Ordered);
}

proof fn lemma_response_lanes(
    id: u128,
    has_priority_lane: bool,
    payloads: Seq<Seq<u8>>,
    lane: LaneChoice,
)
    ensures
        on_lane(response_frames(SenderView::fresh(id, has_priority_lane), payloads), lane) == if has_priority_lane {
            match lane {
                LaneChoice::Priority => priority_part(id, payloads),
                LaneChoice::Ordered => ordered_part(id, payloads),
            }
        } else {
            match lane {
                LaneChoice::Priority => Seq::empty(),
                LaneChoice::Ordered => seq![bare(id, FrameKind::Prologue)] + bulk(
                    id,
                    payloads,
                ).push(bare(id, FrameKind::End)),
            }
        },
{
    let sender = SenderView::fresh(id, has_priority_lane);
    let open = sender.opened(false);
    lemma_data_frames(open, payloads);
    let (frames, last) = data_frames(open, payloads);
    let first = seq![sender.prologue(None)];
    lemma_on_lane_concat(first + frames, last.closing(), lane);
    lemma_on_lane_concat(first, frames, lane);
    reveal_with_fuel(on_lane, 3);
    assert(first.drop_last() =~= Seq::empty());
    let closing = last.closing();
    if closing.len() == 2 {
        assert(closing.drop_last() =~= seq![closing[0]]);
        assert(closing.drop_last().drop_last() =~= Seq::empty());
    } else {
        assert(closing.drop_last() =~= Seq::empty());
    }
    let got = on_lane(response_frames(sender, payloads), lane);
    if has_priority_lane {
        match lane {
            LaneChoice::Priority => assert(got =~= priority_part(id, payloads)),
            LaneChoice::Ordered => assert(got =~= ordered_part(id, payloads)),
        }
    } else {
        match lane {
            LaneChoice::Priority => assert(got =~= Seq::empty()),
            LaneChoice::Ordered => assert(got =~= seq![bare(id, FrameKind::Prologue)] + bulk(
                id,
                payloads,
            ).push(bare(id, FrameKind::End))),
        }
    }
}

/// A response begins with a prologue, or with an error that carries the message
/// instead, on the priority lane where there is one.
pub proof fn responses_begin_urgently(sender: SenderView, message: Seq<u8>)
    ensures
        ({
            let lane = if sender.has_priority_lane {
                LaneChoice::Priority
            } else {
                LaneChoice::Ordered
            };
            &&& sender.prologue(None).frame.kind == FrameKind::Prologue
            &&& sender.prologue(None).frame.payload.len() == 0
            &&& sender.prologue(None).frame.registration_id == sender.registration_id
            &&& sender.prologue(None).lane == lane
            &&& sender.prologue(Some(message)).frame.kind == FrameKind::Error
            &&& sender.prologue(Some(message)).frame.payload == message
            &&& sender.prologue(Some(message)).frame.registration_id == sender.registration_id
            &&& sender.prologue(Some(message)).lane == lane
        }),
        sender.opened(false).prologue_sent,
        sender.opened(false).terminated == sender.terminated,
        sender.opened(true).prologue_sent,
        sender.opened(true).terminated,
        sender.opened(false).first_data_sent == sender.first_data_sent,
        sender.opened(false).has_priority_lane == sender.has_priority_lane,
        sender.opened(false).registration_id == sender.registration_id,
        sender.is_open() <==> sender.prologue_sent && !sender.terminated,
        !SenderView::fresh(sender.registration_id, true).prologue_sent,
        !SenderView::fresh(sender.registration_id, true).terminated,
        !SenderView::fresh(sender.registration_id, true).first_data_sent,
        SenderView::fresh(sender.registration_id, sender.has_priority_lane).registration_id
            == sender.registration_id,
        SenderView::fresh(sender.registration_id, sender.has_priority_lane).has_priority_lane
            == sender.has_priority_lane,
{
}

/// The first payload goes out as such on the priority lane where there is one,
/// and every other payload on the ordered lane, whole and under the response's
/// own id.
pub proof fn payloads_go_to_their_lane(sender: SenderView, payload: Seq<u8>)
    ensures
        sender.data(payload).frame.payload == payload,
        sender.data(payload).frame.registration_id == sender.registration_id,
        sender.has_priority_lane && !sender.first_data_sent ==> sender.data(payload).frame.kind
            == FrameKind::FirstData && sender.data(payload).lane == LaneChoice::Priority,
        !sender.has_priority_lane || sender.first_data_sent ==> sender.data(payload).frame.kind
            == FrameKind::Data && sender.data(payload).lane == LaneChoice::Ordered,
        sender.after_data().first_data_sent,
        sender.after_data().prologue_sent == sender.prologue_sent,
        sender.after_data().terminated == sender.terminated,
{
}

/// An open response ends with an end on the ordered lane. Where a first payload
/// was still to come on the priority lane, that lane is told before that there is
/// none. A response that is not open has nothing to end.
pub proof fn responses_end_on_the_ordered_lane(sender: SenderView)
    ensures
        ({
            let closing = sender.closing();
            let waits = sender.has_priority_lane && !sender.first_data_sent;
            let open = sender.prologue_sent && !sender.terminated;
            &&& !open ==> closing.len() == 0
            &&& open ==> {
                &&& closing.len() == if waits {
                    2nat
                } else {
                    1
                }
                &&& closing.last().frame.kind == FrameKind::End
                &&& closing.last().lane == LaneChoice::Ordered
                &&& closing.last().frame.payload.len() == 0
                &&& closing.last().frame.registration_id == sender.registration_id
                &&& waits ==> closing[0].frame.kind == FrameKind::PriorityEnd && closing[0].lane
                    == LaneChoice::Priority && closing[0].frame.payload.len() == 0
                    && closing[0].frame.registration_id == sender.registration_id
            }
        }),
{
}

} // verus!
