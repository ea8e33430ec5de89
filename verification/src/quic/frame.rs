//! Logical response frames and their wire form.
//!
//! A frame is a fixed-length header, which holds the kind, the registration id
//! and the payload length, followed by the payload.

use crate::quic::big_endian;
use vstd::prelude::*;

verus! {

/// Bytes of a frame header: one for the kind, sixteen for the registration id
/// and four for the payload length.
pub const FRAME_HEADER_LEN: usize = 21;

/// The largest payload that a frame carries.
pub const MAX_FRAME_PAYLOAD: usize = 33_554_432;

/// One more than the largest length that a header can hold.
pub const LENGTH_RANGE: u64 = 0x1_0000_0000;

/// What a frame means.
#[derive(Clone, Copy, Debug, PartialEq, Eq, Structural)]
pub enum FrameKind {
    Prologue,
    Data,
    Error,
    End,
    Stop,
    Kill,
    Reset,
    FirstData,
    PriorityEnd,
    Bundle,
}

/// Why bytes are not a frame.
#[derive(Clone, Copy, Debug, PartialEq, Eq, Structural)]
pub enum FrameError {
    /// The first header byte names no kind.
    UnknownKind { value: u8 },
    /// The header announces more than `MAX_FRAME_PAYLOAD` bytes.
    PayloadTooLarge { payload_len: usize },
}

/// What a frame header says.
#[derive(Clone, Copy, Debug, PartialEq, Eq, Structural)]
pub struct FrameHeader {
    pub kind: FrameKind,
    pub registration_id: u128,
    pub payload_len: usize,
}

/// The wire code of each kind.
pub open spec fn kind_code(kind: FrameKind) -> u8 {
    match kind {
        FrameKind::Prologue => 1,
        FrameKind::Data => 2,
        FrameKind::Error => 3,
        FrameKind::End => 4,
        FrameKind::Stop => 5,
        FrameKind::Kill => 6,
        FrameKind::Reset => 7,
        FrameKind::FirstData => 8,
        FrameKind::PriorityEnd => 9,
        FrameKind::Bundle => 10,
    }
}

/// Frames that overtake the others waiting in a lane.
pub open spec fn urgent_kind(kind: FrameKind) -> bool {
    kind == FrameKind::Prologue || kind == FrameKind::Error || kind == FrameKind::FirstData || kind
        == FrameKind::PriorityEnd
}

impl FrameKind {
    /// The wire code of this kind.
    pub fn code(self) -> (value: u8)
        ensures
            value == kind_code(self),
    {
        match self {
            FrameKind::Prologue => 1,
            FrameKind::Data => 2,
            FrameKind::Error => 3,
            FrameKind::End => 4,
            FrameKind::Stop => 5,
            FrameKind::Kill => 6,
            FrameKind::Reset => 7,
            FrameKind::FirstData => 8,
            FrameKind::PriorityEnd => 9,
            FrameKind::Bundle => 10,
        }
    }

    /// The kind whose wire code is `value`.
    pub fn try_from(value: u8) -> (r: Result<FrameKind, FrameError>)
        ensures
            match r {
                Ok(kind) => kind_code(kind) == value,
                Err(e) => e == (FrameError::UnknownKind { value }) && forall|kind: FrameKind|
                    kind_code(kind) != value,
            },
    {
        match value {
            1 => Ok(FrameKind::Prologue),
            2 => Ok(FrameKind::Data),
            3 => Ok(FrameKind::Error),
            4 => Ok(FrameKind::End),
            5 => Ok(FrameKind::Stop),
            6 => Ok(FrameKind::Kill),
            7 => Ok(FrameKind::Reset),
            8 => Ok(FrameKind::FirstData),
            9 => Ok(FrameKind::PriorityEnd),
            10 => Ok(FrameKind::Bundle),
            _ => Err(FrameError::UnknownKind { value }),
        }
    }
}

/// One logical response frame.
///
/// `queued_at` is the monotonic time, in nanoseconds, at which it was made.
#[derive(Debug)]
pub struct Frame {
    pub kind: FrameKind,
    pub registration_id: u128,
    pub payload: Vec<u8>,
    pub queued_at: u64,
    pub diagnostic_kind: Option<&'static str>,
}

/// What a frame carries, without its bookkeeping.
pub struct FrameView {
    pub kind: FrameKind,
    pub registration_id: u128,
    pub payload: Seq<u8>,
}

impl View for Frame {
    type V = FrameView;

    open spec fn view(&self) -> FrameView {
        FrameView {
            kind: self.kind,
            registration_id: self.registration_id,
            payload: self.payload@,
        }
    }
}

/// The label under which the queue time of a frame is recorded.
pub open spec fn diagnostic_label(kind: FrameKind) -> Option<Seq<char>> {
    match kind {
        FrameKind::Prologue => Some("prologue"@),
        FrameKind::FirstData => Some("first_data"@),
        _ => None,
    }
}

impl FrameView {
    /// The header bytes of the frame.
    pub open spec fn header(self) -> Seq<u8> {
        seq![kind_code(self.kind)] + big_endian::be_bytes(self.registration_id as nat, 16)
            + big_endian::be_bytes(self.header_len(), 4)
    }

    /// The payload's length as the header holds it.
    pub open spec fn header_len(self) -> nat {
        (self.payload.len() % LENGTH_RANGE as nat) as nat
    }

    /// The frame as it goes over the wire.
    pub open spec fn wire(self) -> Seq<u8> {
        self.header() + self.payload
    }

    /// Whether the payload is no larger than a frame may carry.
    pub open spec fn fits(self) -> bool {
        self.payload.len() <= MAX_FRAME_PAYLOAD
    }
}

impl Frame {
    /// Whether the frame was made at `now` and has the label of its kind.
    pub open spec fn made_at(&self, now: u64) -> bool {
        &&& self.queued_at == now
        &&& match diagnostic_label(self.kind) {
            Some(label) => self.diagnostic_kind is Some && self.diagnostic_kind->0@ == label,
            None => self.diagnostic_kind is None,
        }
    }

    pub fn new(kind: FrameKind, registration_id: u128, payload: Vec<u8>, queued_at: u64) -> (r:
        Self)
        ensures
            r@ == (FrameView { kind, registration_id, payload: payload@ }),
            r.made_at(queued_at),
    {
        let diagnostic_kind = match kind {
            FrameKind::Prologue => Some("prologue"),
            FrameKind::FirstData => Some("first_data"),
            _ => None,
        };
        Frame { kind, registration_id, payload, queued_at, diagnostic_kind }
    }

    /// Whether the frame overtakes the others waiting in a lane.
    pub fn is_urgent(&self) -> (r: bool)
        ensures
            r == urgent_kind(self.kind),
    {
        match self.kind {
            FrameKind::Prologue
            | FrameKind::Error
            | FrameKind::FirstData
            | FrameKind::PriorityEnd => true,
            _ => false,
        }
    }

    /// The header bytes of the frame.
    pub fn header(&self) -> (r: Vec<u8>)
        ensures
            r@ == self@.header(),
            r@.len() == FRAME_HEADER_LEN,
    {
        let mut out: Vec<u8> = Vec::new();
        out.push(self.kind.code());
        big_endian::put_be(&mut out, self.registration_id, 16);
        let len: u64 = self.payload.len() as u64 % LENGTH_RANGE;
        big_endian::put_be(&mut out, len as u128, 4);
        proof {
            big_endian::lemma_be_bytes_len(self.registration_id as nat, 16);
            big_endian::lemma_be_bytes_len(self@.header_len(), 4);
            assert(out@ =~= self@.header());
        }
        out
    }
}

/// What the header `bytes` says.
pub open spec fn header_reading(bytes: Seq<u8>) -> Result<FrameHeader, FrameError> {
    let payload_len = big_endian::be_value(bytes.subrange(17, 21));
    if forall|kind: FrameKind| kind_code(kind) != bytes[0] {
        Err(FrameError::UnknownKind { value: bytes[0] })
    } else if payload_len > MAX_FRAME_PAYLOAD {
        Err(FrameError::PayloadTooLarge { payload_len: payload_len as usize })
    } else {
        Ok(
            FrameHeader {
                kind: choose|kind: FrameKind| kind_code(kind) == bytes[0],
                registration_id: big_endian::be_value(bytes.subrange(1, 17)) as u128,
                payload_len: payload_len as usize,
            },
        )
    }
}

/// Reads a frame header.
pub fn read_header(bytes: &[u8]) -> (r: Result<FrameHeader, FrameError>)
    requires
        bytes@.len() == FRAME_HEADER_LEN,
    ensures
        r == header_reading(bytes@),
{
    let kind = match FrameKind::try_from(bytes[0]) {
        Ok(kind) => kind,
        Err(e) => {
            return Err(e);
        },
    };
    let registration_id = big_endian::get_be(bytes, 1, 17);
    let payload_len = big_endian::get_be(bytes, 17, 21);
    proof {
        big_endian::lemma_be_value_bound(bytes@.subrange(1, 17));
        big_endian::lemma_be_value_bound(bytes@.subrange(17, 21));
        reveal_with_fuel(big_endian::byte_range, 17);
        assert(kind_code(kind) == bytes@[0]);
    }
    if payload_len > MAX_FRAME_PAYLOAD as u128 {
        return Err(FrameError::PayloadTooLarge { payload_len: payload_len as usize });
    }
    Ok(FrameHeader { kind, registration_id, payload_len: payload_len as usize })
}

/// One step of reading frames off a byte stream: the first frame and what
/// follows it. `None` while the stream does not yet hold a whole frame.
pub open spec fn first_frame(stream: Seq<u8>) -> Option<(FrameView, Seq<u8>)> {
    if stream.len() < FRAME_HEADER_LEN {
        None
    } else {
        match header_reading(stream.take(FRAME_HEADER_LEN as int)) {
            Ok(header) => {
                let end = FRAME_HEADER_LEN + header.payload_len;
                if stream.len() < end {
                    None
                } else {
                    Some(
                        (
                            FrameView {
                                kind: header.kind,
                                registration_id: header.registration_id,
                                payload: stream.subrange(FRAME_HEADER_LEN as int, end),
                            },
                            stream.skip(end),
                        ),
                    )
                }
            },
            Err(_) => None,
        }
    }
}

/// The bytes of frames written one after another.
pub open spec fn wire_of(frames: Seq<FrameView>) -> Seq<u8>
    decreases frames.len(),
{
    if frames.len() == 0 {
        Seq::empty()
    } else {
        frames[0].wire() + wire_of(frames.skip(1))
    }
}

/// The frames that a byte stream holds, up to the first that is not whole.
pub open spec fn frames_of(stream: Seq<u8>) -> Seq<FrameView>
    decreases stream.len(),
{
    match first_frame(stream) {
        Some((frame, rest)) => if rest.len() < stream.len() {
            seq![frame] + frames_of(rest)
        } else {
            Seq::empty()
        },
        None => Seq::empty(),
    }
}

/// No two kinds share a wire code.
pub proof fn kind_codes_are_distinct(a: FrameKind, b: FrameKind)
    requires
        kind_code(a) == kind_code(b),
    ensures
        a == b,
{
}

/// A header that was written reads back as what it was written from.
pub proof fn header_round_trip(frame: FrameView)
    requires
        frame.fits(),
    ensures
        frame.header().len() == FRAME_HEADER_LEN,
        header_reading(frame.header()) == Ok::<FrameHeader, FrameError>(
            FrameHeader {
                kind: frame.kind,
                registration_id: frame.registration_id,
                payload_len: frame.payload.len() as usize,
            },
        ),
{
    let header = frame.header();
    big_endian::lemma_be_bytes_len(frame.registration_id as nat, 16);
    big_endian::lemma_be_bytes_len(frame.payload.len(), 4);
    reveal_with_fuel(big_endian::byte_range, 17);
    assert(header[0] == kind_code(frame.kind));
    assert(header.subrange(1, 17) =~= big_endian::be_bytes(frame.registration_id as nat, 16));
    assert(header.subrange(17, 21) =~= big_endian::be_bytes(frame.payload.len(), 4));
    big_endian::lemma_be_round_trip(frame.registration_id as nat, 16);
    big_endian::lemma_be_round_trip(frame.payload.len(), 4);
    let kind = choose|kind: FrameKind| kind_code(kind) == header[0];
    assert(kind_code(frame.kind) == header[0]);
    kind_codes_are_distinct(kind, frame.kind);
}

/// Reading a stream gives back the frames that were written to it, in order,
/// whatever comes after them.
pub proof fn stream_round_trip(frames: Seq<FrameView>, tail: Seq<u8>)
    requires
        forall|i: int| 0 <= i < frames.len() ==> (#[trigger] frames[i]).fits(),
    ensures
        frames_of(wire_of(frames) + tail) == frames + frames_of(tail),
    decreases frames.len(),
{
    if frames.len() == 0 {
        assert(wire_of(frames) + tail =~= tail);
        assert(frames + frames_of(tail) =~= frames_of(tail));
    } else {
        let head = frames[0];
        let rest = frames.skip(1);
        let stream = wire_of(frames) + tail;
        let after = wire_of(rest) + tail;
        header_round_trip(head);
        assert(stream =~= head.header() + head.payload + after);
        assert(stream.take(FRAME_HEADER_LEN as int) =~= head.header());
        let end = FRAME_HEADER_LEN + head.payload.len();
        assert(stream.subrange(FRAME_HEADER_LEN as int, end as int) =~= head.payload);
        assert(stream.skip(end as int) =~= after);
        assert(head.payload.len() as usize == head.payload.len());
        assert(first_frame(stream) == Some((head, after)));
        assert forall|i: int| 0 <= i < rest.len() implies (#[trigger] rest[i]).fits() by {
            assert(rest[i] == frames[i + 1]);
        }
        stream_round_trip(rest, tail);
        assert(frames_of(stream) == seq![head] + frames_of(after));
        assert(seq![head] + (rest + frames_of(tail)) =~= frames + frames_of(tail));
    }
}

/// The kinds have the codes that both ends of a lane agree on.
pub proof fn kinds_have_their_codes()
    ensures
        kind_code(FrameKind::Prologue) == 1,
        kind_code(FrameKind::Data) == 2,
        kind_code(FrameKind::Error) == 3,
        kind_code(FrameKind::End) == 4,
        kind_code(FrameKind::Stop) == 5,
        kind_code(FrameKind::Kill) == 6,
        kind_code(FrameKind::Reset) == 7,
        kind_code(FrameKind::FirstData) == 8,
        kind_code(FrameKind::PriorityEnd) == 9,
        kind_code(FrameKind::Bundle) == 10,
{
}

/// What a response begins or fails with overtakes the rest of a lane, and
/// nothing else does.
pub proof fn beginnings_are_urgent(kind: FrameKind)
    ensures
        kind == FrameKind::Prologue || kind == FrameKind::FirstData || kind == FrameKind::Error
            || kind == FrameKind::PriorityEnd ==> urgent_kind(kind),
        kind == FrameKind::Data || kind == FrameKind::End || kind == FrameKind::Stop || kind
            == FrameKind::Kill || kind == FrameKind::Reset || kind == FrameKind::Bundle
            ==> !urgent_kind(kind),
        diagnostic_label(kind) is Some <==> kind == FrameKind::Prologue || kind
            == FrameKind::FirstData,
        diagnostic_label(FrameKind::Prologue) == Some("prologue"@),
        diagnostic_label(FrameKind::FirstData) == Some("first_data"@),
{
}

/// A frame on the wire is one byte for the kind, sixteen for the registration
/// id and four for the payload's length, both with the most significant byte
/// first, and then the payload as it is.
pub proof fn wire_layout(frame: FrameView, i: int)
    requires
        frame.payload.len() <= 33_554_432,
    ensures
        frame.fits(),
        frame.wire().len() == 21 + frame.payload.len(),
        frame.wire()[0] == kind_code(frame.kind),
        0 <= i < 16 ==> frame.wire()[1 + i] == (frame.registration_id as int
            / vstd::arithmetic::power::pow(256, (15 - i) as nat)) % 256,
        0 <= i < 4 ==> frame.wire()[17 + i] == (frame.payload.len() as int
            / vstd::arithmetic::power::pow(256, (3 - i) as nat)) % 256,
        0 <= i < frame.payload.len() ==> frame.wire()[21 + i] == frame.payload[i],
{
    big_endian::lemma_be_bytes_len(frame.registration_id as nat, 16);
    big_endian::lemma_be_bytes_len(frame.header_len(), 4);
    assert(frame.header_len() == frame.payload.len());
    if 0 <= i < 16 {
        big_endian::bytes_are_digits(frame.registration_id as nat, 16, i);
    }
    if 0 <= i < 4 {
        big_endian::bytes_are_digits(frame.payload.len(), 4, i);
    }
}

/// A header is refused if its first byte is no kind's code or if it announces
/// more than a frame may carry, and says what it says otherwise.
pub proof fn headers_are_read_field_by_field(bytes: Seq<u8>)
    requires
        bytes.len() == 21,
    ensures
        ({
            let len = ((bytes[17] * 256 + bytes[18]) * 256 + bytes[19]) * 256 + bytes[20];
            &&& bytes[0] == 0 || bytes[0] > 10 ==> header_reading(bytes) == Err::<
                FrameHeader,
                FrameError,
            >(FrameError::UnknownKind { value: bytes[0] })
            &&& 1 <= bytes[0] <= 10 && len > 33_554_432 ==> (header_reading(bytes) matches Err(
                FrameError::PayloadTooLarge { payload_len },
            ) && payload_len == len)
            &&& 1 <= bytes[0] <= 10 && len <= 33_554_432 ==> (header_reading(bytes) matches Ok(
                header,
            ) && header.payload_len == len && kind_code(header.kind) == bytes[0]
                && header.registration_id == big_endian::be_value(bytes.subrange(1, 17)))
        }),
{
    let part = bytes.subrange(17, 21);
    let len = ((bytes[17] * 256 + bytes[18]) * 256 + bytes[19]) * 256 + bytes[20];
    assert(big_endian::be_value(part) == len) by {
        assert(part.drop_last() =~= bytes.subrange(17, 20));
        assert(bytes.subrange(17, 20).drop_last() =~= bytes.subrange(17, 19));
        assert(bytes.subrange(17, 19).drop_last() =~= bytes.subrange(17, 18));
        assert(bytes.subrange(17, 18).drop_last() =~= Seq::empty());
        reveal_with_fuel(big_endian::be_value, 5);
    }
    let code = bytes[0];
    let kind = if code == 1 {
        FrameKind::Prologue
    } else if code == 2 {
        FrameKind::Data
    } else if code == 3 {
        FrameKind::Error
    } else if code == 4 {
        FrameKind::End
    } else if code == 5 {
        FrameKind::Stop
    } else if code == 6 {
        FrameKind::Kill
    } else if code == 7 {
        FrameKind::Reset
    } else if code == 8 {
        FrameKind::FirstData
    } else if code == 9 {
        FrameKind::PriorityEnd
    } else {
        FrameKind::Bundle
    };
    if 1 <= code <= 10 {
        assert(kind_code(kind) == code);
    } else {
        assert forall|kind: FrameKind| kind_code(kind) != code by {}
    }
    big_endian::lemma_be_value_bound(bytes.subrange(1, 17));
    reveal_with_fuel(big_endian::byte_range, 17);
}

/// A frame is seen with its kind, its response and its whole payload.
pub proof fn frames_are_seen_whole(frame: Frame, now: u64)
    ensures
        frame@.kind == frame.kind,
        frame@.registration_id == frame.registration_id,
        frame@.payload == frame.payload@,
        frame.made_at(now) ==> frame.queued_at == now && (frame.diagnostic_kind is Some
            <==> frame.kind == FrameKind::Prologue || frame.kind == FrameKind::FirstData),
{
}

} // verus!
