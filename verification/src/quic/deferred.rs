//! Payloads held back until their response may be delivered.

use std::collections::VecDeque;
use vstd::prelude::*;

verus! {

/// The most payloads that one response holds back.
pub const MAX_DEFERRED_RESPONSE_FRAMES: usize = 1_024;

/// The most payload bytes that one response holds back.
pub const MAX_DEFERRED_RESPONSE_BYTES: usize = 16_777_216;

/// Payloads of one response that arrived ahead of their turn, oldest first.
#[derive(Debug)]
pub struct DeferredResponse {
    pub data: VecDeque<Vec<u8>>,
    pub bytes: usize,
    pub end: bool,
}

/// The payloads held back, the bytes counted for them, and whether the end of
/// the response has arrived.
#[verifier::ext_equal]
pub struct DeferredView {
    pub data: Seq<Seq<u8>>,
    pub bytes: nat,
    pub end: bool,
}

/// The contents of byte buffers.
pub open spec fn contents(buffers: Seq<Vec<u8>>) -> Seq<Seq<u8>> {
    buffers.map_values(|buffer: Vec<u8>| buffer@)
}

/// The bytes in all of `payloads` together.
pub open spec fn total_bytes(payloads: Seq<Seq<u8>>) -> nat
    decreases payloads.len(),
{
    if payloads.len() == 0 {
        0
    } else {
        total_bytes(payloads.drop_last()) + payloads.last().len()
    }
}

impl View for DeferredResponse {
    type V = DeferredView;

    open spec fn view(&self) -> DeferredView {
        DeferredView { data: contents(self.data@), bytes: self.bytes as nat, end: self.end }
    }
}

impl DeferredView {
    pub open spec fn empty() -> Self {
        DeferredView { data: Seq::empty(), bytes: 0, end: false }
    }

    /// The count is right and both bounds are kept.
    pub open spec fn wf(self) -> bool {
        &&& self.bytes == total_bytes(self.data)
        &&& self.data.len() <= MAX_DEFERRED_RESPONSE_FRAMES
        &&& self.bytes <= MAX_DEFERRED_RESPONSE_BYTES
    }

    /// Whether one more payload of `len` bytes may be held back.
    pub open spec fn admits(self, len: nat) -> bool {
        self.data.len() < MAX_DEFERRED_RESPONSE_FRAMES && self.bytes + len
            <= MAX_DEFERRED_RESPONSE_BYTES
    }

    pub open spec fn pushed(self, payload: Seq<u8>) -> Self {
        DeferredView {
            data: self.data.push(payload),
            bytes: self.bytes + payload.len(),
            end: self.end,
        }
    }

    pub open spec fn taken(self) -> Self {
        DeferredView { data: Seq::empty(), bytes: 0, end: self.end }
    }

    pub open spec fn ended(self) -> Self {
        DeferredView { end: true, ..self }
    }
}

impl DeferredResponse {
    pub fn new() -> (r: Self)
        ensures
            r@ == DeferredView::empty(),
    {
        let r = DeferredResponse { data: VecDeque::new(), bytes: 0, end: false };
        assert(r@ =~= DeferredView::empty());
        r
    }

    /// Holds `payload` back, or returns it if a bound would be exceeded.
    pub fn push(&mut self, payload: Vec<u8>) -> (r: Result<(), Vec<u8>>)
        ensures
            r is Ok <==> old(self)@.admits(payload@.len()),
            r is Ok ==> final(self)@ == old(self)@.pushed(payload@),
            r is Err ==> final(self)@ == old(self)@ && r->Err_0@ == payload@,
    {
        let bytes: usize = match self.bytes.checked_add(payload.len()) {
            Some(bytes) => bytes,
            None => {
                return Err(payload);
            },
        };
        if self.data.len() >= MAX_DEFERRED_RESPONSE_FRAMES || bytes > MAX_DEFERRED_RESPONSE_BYTES {
            return Err(payload);
        }
        self.bytes = bytes;
        self.data.push_back(payload);
        assert(self@ =~= old(self)@.pushed(payload@));
        Ok(())
    }

    /// Takes out all that is held back.
    pub fn take_data(&mut self) -> (r: VecDeque<Vec<u8>>)
        ensures
            contents(r@) == old(self)@.data,
            final(self)@ == old(self)@.taken(),
    {
        let mut data: VecDeque<Vec<u8>> = VecDeque::new();
        self.bytes = 0;
        std::mem::swap(&mut data, &mut self.data);
        assert(self@ =~= old(self)@.taken());
        data
    }
}

/// Holding back keeps the count right and the bounds.
pub proof fn push_keeps_bounds(deferred: DeferredView, payload: Seq<u8>)
    requires
        deferred.wf(),
        deferred.admits(payload.len()),
    ensures
        deferred.pushed(payload).wf(),
{
    assert(deferred.data.push(payload).drop_last() =~= deferred.data);
}

/// What is taken out is what was held back, in the order in which it came.
pub proof fn take_returns_pushes_in_order(deferred: DeferredView, payload: Seq<u8>)
    ensures
        deferred.taken().data == Seq::<Seq<u8>>::empty(),
        deferred.taken().wf(),
        deferred.taken().pushed(payload).data == seq![payload],
        deferred.pushed(payload).data == deferred.data + seq![payload],
{
    assert(deferred.pushed(payload).data =~= deferred.data + seq![payload]);
    assert(deferred.taken().pushed(payload).data =~= seq![payload]);
}

/// One more payload may be held back just if there are fewer than 1024 and all
/// of them together have no more than 16 MiB.
pub proof fn bounds_of_holding_back(deferred: DeferredView, len: nat)
    requires
        deferred.wf(),
    ensures
        deferred.admits(len) <==> deferred.data.len() < 1_024 && total_bytes(deferred.data) + len
            <= 16_777_216,
{
}

/// Holding a payload back, taking all out and noting the end change nothing but
/// what they are for.
pub proof fn holding_back_keeps_the_rest(deferred: DeferredView, payload: Seq<u8>)
    ensures
        deferred.pushed(payload).data == deferred.data.push(payload),
        deferred.pushed(payload).bytes == deferred.bytes + payload.len(),
        deferred.pushed(payload).end == deferred.end,
        deferred.taken().data.len() == 0,
        deferred.taken().bytes == 0,
        deferred.taken().end == deferred.end,
        deferred.ended().data == deferred.data,
        deferred.ended().bytes == deferred.bytes,
        deferred.ended().end,
        DeferredView::empty().data.len() == 0,
        DeferredView::empty().bytes == 0,
        !DeferredView::empty().end,
{
}

/// The bytes of some payloads and of one more are those of all of them.
pub proof fn bytes_add_up(payloads: Seq<Seq<u8>>, payload: Seq<u8>)
    ensures
        total_bytes(Seq::empty()) == 0,
        total_bytes(payloads.push(payload)) == total_bytes(payloads) + payload.len(),
{
    assert(payloads.push(payload).drop_last() =~= payloads);
}

} // verus!
