//! Reading the lines of the stats stream back, as a subscriber does.

use crate::pylon_stats;
use crate::quic::fingerprint;
use crate::text;
use vstd::prelude::*;

verus! {

/// What a line says.
pub struct EventReading {
    pub request_id: Seq<char>,
    pub model: Seq<char>,
    pub tokens_processed: Option<nat>,
    pub tokens_generated: Option<nat>,
    pub finished: bool,
}

/// What stands behind `prefix`, if `bytes` begin with it.
pub open spec fn behind(bytes: Seq<u8>, prefix: Seq<u8>) -> Option<Seq<u8>> {
    if prefix.len() <= bytes.len() && bytes.take(prefix.len() as int) == prefix {
        Some(bytes.skip(prefix.len() as int))
    } else {
        None
    }
}

/// The byte that a letter behind a backslash stands for.
pub open spec fn short_escape(letter: u8) -> Option<u8> {
    if letter == 0x22 || letter == 0x5c || letter == 0x2f {
        Some(letter)
    } else if letter == 0x62 {
        Some(0x08)
    } else if letter == 0x74 {
        Some(0x09)
    } else if letter == 0x6e {
        Some(0x0a)
    } else if letter == 0x66 {
        Some(0x0c)
    } else if letter == 0x72 {
        Some(0x0d)
    } else {
        None
    }
}

/// The rest of a JSON string whose opening quote was read, and what stands
/// behind its closing quote.
pub open spec fn string_rest(bytes: Seq<u8>) -> Option<(Seq<u8>, Seq<u8>)>
    decreases bytes.len(),
{
    if bytes.len() == 0 {
        None
    } else if bytes[0] == 0x22 {
        Some((Seq::empty(), bytes.skip(1)))
    } else if bytes[0] != 0x5c {
        match string_rest(bytes.skip(1)) {
            Some((text, rest)) => Some((seq![bytes[0]] + text, rest)),
            None => None,
        }
    } else if bytes.len() < 2 {
        None
    } else if bytes[1] == 0x75 {
        if bytes.len() < 6 || bytes[2] != 0x30 || bytes[3] != 0x30 {
            None
        } else {
            match (
                fingerprint::hex_value(bytes[4]),
                fingerprint::hex_value(bytes[5]),
                string_rest(bytes.skip(6)),
            ) {
                (Some(high), Some(low), Some((text, rest))) => Some(
                    (seq![(high * 16 + low) as u8] + text, rest),
                ),
                _ => None,
            }
        }
    } else {
        match (short_escape(bytes[1]), string_rest(bytes.skip(2))) {
            (Some(byte), Some((text, rest))) => Some((seq![byte] + text, rest)),
            _ => None,
        }
    }
}

/// A JSON string as text, and what stands behind it.
pub open spec fn string_reading(bytes: Seq<u8>) -> Option<(Seq<char>, Seq<u8>)> {
    if bytes.len() == 0 || bytes[0] != 0x22 {
        None
    } else {
        match string_rest(bytes.skip(1)) {
            Some((text, rest)) => if vstd::utf8::valid_utf8(text) {
                Some((vstd::utf8::decode_utf8(text), rest))
            } else {
                None
            },
            None => None,
        }
    }
}

/// How many digits `bytes` begin with.
pub open spec fn digit_count(bytes: Seq<u8>) -> nat
    decreases bytes.len(),
{
    if bytes.len() > 0 && 0x30 <= bytes[0] <= 0x39 {
        1 + digit_count(bytes.skip(1))
    } else {
        0
    }
}

/// The number that digits stand for.
pub open spec fn number_value(digits: Seq<u8>) -> nat
    decreases digits.len(),
{
    if digits.len() == 0 {
        0
    } else {
        10 * number_value(digits.drop_last()) + (digits.last() - 0x30) as nat
    }
}

/// The number that a counter of that name has, if it comes next, and what stands
/// behind it.
pub open spec fn counter_reading(bytes: Seq<u8>, name: Seq<u8>) -> (Option<nat>, Seq<u8>) {
    match behind(bytes, name) {
        Some(rest) => {
            let digits = digit_count(rest) as int;
            (Some(number_value(rest.take(digits))), rest.skip(digits))
        },
        None => (None, bytes),
    }
}

/// The bytes of a literal.
pub open spec fn bytes_of(text: Seq<char>) -> Seq<u8> {
    vstd::utf8::encode_utf8(text)
}

/// What a line says, if it is one of the stream's.
pub open spec fn event_reading(line: Seq<u8>) -> Option<EventReading> {
    match behind(line, bytes_of("{\"v\":1,\"type\":\"stats\",\"request_id\":"@)) {
        None => None,
        Some(line) => match string_reading(line) {
            None => None,
            Some((request_id, line)) => match behind(line, bytes_of(",\"model\":"@)) {
                None => None,
                Some(line) => match string_reading(line) {
                    None => None,
                    Some((model, line)) => {
                        let (tokens_processed, line) = counter_reading(
                            line,
                            bytes_of(",\"tokens_processed\":"@),
                        );
                        let (tokens_generated, line) = counter_reading(
                            line,
                            bytes_of(",\"tokens_generated\":"@),
                        );
                        if line == bytes_of(",\"finished\":true}\n"@) {
                            Some(
                                EventReading {
                                    request_id,
                                    model,
                                    tokens_processed,
                                    tokens_generated,
                                    finished: true,
                                },
                            )
                        } else if line == bytes_of(",\"finished\":false}\n"@) {
                            Some(
                                EventReading {
                                    request_id,
                                    model,
                                    tokens_processed,
                                    tokens_generated,
                                    finished: false,
                                },
                            )
                        } else {
                            None
                        }
                    },
                },
            },
        },
    }
}

proof fn lemma_behind(prefix: Seq<u8>, rest: Seq<u8>)
    ensures
        behind(prefix + rest, prefix) == Some(rest),
{
    assert((prefix + rest).take(prefix.len() as int) =~= prefix);
    assert((prefix + rest).skip(prefix.len() as int) =~= rest);
}

proof fn lemma_string_rest(bytes: Seq<u8>, tail: Seq<u8>)
    ensures
        string_rest(
            bytes.map_values(|byte: u8| pylon_stats::escaped(byte)).flatten() + (seq![0x22u8]
                + tail),
        ) == Some((bytes, tail)),
    decreases bytes.len(),
{
    let parts = bytes.map_values(|byte: u8| pylon_stats::escaped(byte));
    let end = seq![0x22u8] + tail;
    if bytes.len() == 0 {
        assert(parts.flatten() =~= Seq::<u8>::empty());
        assert(parts.flatten() + end =~= end);
        assert(end.skip(1) =~= tail);
        assert(bytes =~= Seq::empty());
    } else {
        let first = bytes[0];
        let more = bytes.drop_first();
        lemma_string_rest(more, tail);
        assert(parts.drop_first() =~= more.map_values(|byte: u8| pylon_stats::escaped(byte)));
        let after = more.map_values(|byte: u8| pylon_stats::escaped(byte)).flatten() + end;
        let written = pylon_stats::escaped(first);
        let all = parts.flatten() + end;
        assert(parts.flatten() == written + parts.drop_first().flatten());
        assert(all =~= written + after);
        assert(all.skip(written.len() as int) =~= after);
        assert(forall|i: int| 0 <= i < written.len() ==> all[i] == #[trigger] written[i]);
        assert(seq![first] + more =~= bytes);
        if written.len() == 6 {
            assert(all[0] == written[0] && all[1] == written[1] && all[2] == written[2] && all[3]
                == written[3] && all[4] == written[4] && all[5] == written[5]);
            assert(fingerprint::hex_value(written[4]) == Some((first / 16) as u8));
            assert(fingerprint::hex_value(written[5]) == Some((first % 16) as u8));
            assert((first / 16) * 16 + first % 16 == first);
        } else if written.len() == 2 {
            assert(all[0] == written[0] && all[1] == written[1]);
            assert(short_escape(written[1]) == Some(first));
        } else {
            assert(all[0] == written[0]);
        }
    }
}

proof fn lemma_string_reading(text: Seq<char>, tail: Seq<u8>)
    ensures
        string_reading(pylon_stats::json_string(text) + tail) == Some((text, tail)),
{
    broadcast use vstd::utf8::group_utf8_lib;

    let bytes = vstd::utf8::encode_utf8(text);
    let inner = bytes.map_values(|byte: u8| pylon_stats::escaped(byte)).flatten();
    lemma_string_rest(bytes, tail);
    let all = pylon_stats::json_string(text) + tail;
    assert(all[0] == 0x22);
    assert(all.skip(1) =~= inner + (seq![0x22u8] + tail));
    assert(vstd::utf8::valid_utf8(bytes));
    assert(vstd::utf8::decode_utf8(bytes) == text);
}

proof fn lemma_digits(n: nat)
    ensures
        ({
            let digits = bytes_of(text::decimal_digits(n));
            &&& digits.len() > 0
            &&& forall|i: int| 0 <= i < digits.len() ==> 0x30 <= #[trigger] digits[i] <= 0x39
            &&& number_value(digits) == n
        }),
    decreases n,
{
    let chars = text::decimal_digits(n);
    text::lemma_decimal_value(n);
    vstd::utf8::is_ascii_chars_encode_utf8(chars);
    let digits = bytes_of(chars);
    assert forall|i: int| 0 <= i < digits.len() implies 0x30 <= #[trigger] digits[i] <= 0x39 by {
        assert(digits[i] == chars[i] as u8);
        assert(text::is_digit(chars[i]));
    }
    let last = digits.len() - 1;
    assert(digits[last] == chars[last] as u8);
    if n < 10 {
        assert(digits.drop_last() =~= Seq::empty());
        reveal_with_fuel(number_value, 2);
        assert(digits[last] == 0x30 + n);
    } else {
        lemma_digits(n / 10);
        let front = text::decimal_digits(n / 10);
        text::lemma_decimal_value(n / 10);
        vstd::utf8::is_ascii_chars_encode_utf8(front);
        assert(digits.drop_last() =~= bytes_of(front)) by {
            assert forall|i: int| 0 <= i < front.len() implies #[trigger] digits[i] == bytes_of(
                front,
            )[i] by {
                assert(chars[i] == front[i]);
                assert(digits[i] == chars[i] as u8);
                assert(bytes_of(front)[i] == front[i] as u8);
            }
        }
        assert(digits[last] == 0x30 + n % 10);
    }
}

proof fn lemma_digit_count(digits: Seq<u8>, tail: Seq<u8>)
    requires
        forall|i: int| 0 <= i < digits.len() ==> 0x30 <= #[trigger] digits[i] <= 0x39,
        tail.len() > 0,
        tail[0] == 0x2c,
    ensures
        digit_count(digits + tail) == digits.len(),
    decreases digits.len(),
{
    if digits.len() == 0 {
        assert(digits + tail =~= tail);
    } else {
        lemma_digit_count(digits.skip(1), tail);
        assert((digits + tail).skip(1) =~= digits.skip(1) + tail);
    }
}

proof fn lemma_counter(name: Seq<char>, value: u64, tail: Seq<u8>)
    requires
        tail.len() > 0,
        tail[0] == 0x2c,
    ensures
        counter_reading(pylon_stats::counter_field(name, Some(value)) + tail, bytes_of(name)) == (
            Some(value as nat),
            tail,
        ),
{
    let digits = bytes_of(text::decimal_digits(value as nat));
    lemma_digits(value as nat);
    lemma_digit_count(digits, tail);
    let rest = digits + tail;
    assert(pylon_stats::counter_field(name, Some(value)) + tail =~= bytes_of(name) + rest);
    lemma_behind(bytes_of(name), rest);
    assert(rest.take(digits.len() as int) =~= digits);
    assert(rest.skip(digits.len() as int) =~= tail);
}

proof fn lemma_no_counter(bytes: Seq<u8>, name: Seq<u8>, i: int)
    requires
        0 <= i < name.len(),
        i < bytes.len(),
        bytes[i] != name[i],
    ensures
        counter_reading(bytes, name) == (None::<nat>, bytes),
{
    if name.len() <= bytes.len() {
        assert(bytes.take(name.len() as int)[i] == bytes[i]);
    }
}

proof fn lemma_literals()
    ensures
        ({
            let processed = bytes_of(",\"tokens_processed\":"@);
            let generated = bytes_of(",\"tokens_generated\":"@);
            let over = bytes_of(",\"finished\":true}\n"@);
            let going = bytes_of(",\"finished\":false}\n"@);
            &&& processed.len() > 9 && processed[0] == 0x2c && processed[2] == 0x74
                && processed[9] == 0x70
            &&& generated.len() > 9 && generated[0] == 0x2c && generated[2] == 0x74
                && generated[9] == 0x67
            &&& over.len() > 12 && over[0] == 0x2c && over[2] == 0x66 && over[12] == 0x74
            &&& going.len() > 12 && going[0] == 0x2c && going[2] == 0x66 && going[12] == 0x66
        }),
{
    reveal_strlit(",\"tokens_processed\":");
    reveal_strlit(",\"tokens_generated\":");
    reveal_strlit(",\"finished\":true}\n");
    reveal_strlit(",\"finished\":false}\n");
    vstd::utf8::is_ascii_chars_encode_utf8(",\"tokens_processed\":"@);
    vstd::utf8::is_ascii_chars_encode_utf8(",\"tokens_generated\":"@);
    vstd::utf8::is_ascii_chars_encode_utf8(",\"finished\":true}\n"@);
    vstd::utf8::is_ascii_chars_encode_utf8(",\"finished\":false}\n"@);
}

spec fn end_of(finished: bool) -> Seq<u8> {
    if finished {
        bytes_of(",\"finished\":true}\n"@)
    } else {
        bytes_of(",\"finished\":false}\n"@)
    }
}

pub open spec fn count(value: Option<u64>) -> Option<nat> {
    match value {
        Some(value) => Some(value as nat),
        None => None,
    }
}

proof fn lemma_counters(
    tokens_processed: Option<u64>,
    tokens_generated: Option<u64>,
    finished: bool,
)
    ensures
        ({
            let line5 = pylon_stats::counter_field(",\"tokens_generated\":"@, tokens_generated)
                + end_of(finished);
            let line4 = pylon_stats::counter_field(",\"tokens_processed\":"@, tokens_processed)
                + line5;
            &&& counter_reading(line4, bytes_of(",\"tokens_processed\":"@)) == (
                count(tokens_processed),
                line5,
            )
            &&& counter_reading(line5, bytes_of(",\"tokens_generated\":"@)) == (
                count(tokens_generated),
                end_of(finished),
            )
        }),
{
    lemma_literals();
    let processed = bytes_of(",\"tokens_processed\":"@);
    let generated = bytes_of(",\"tokens_generated\":"@);
    let end = end_of(finished);
    let line5 = pylon_stats::counter_field(",\"tokens_generated\":"@, tokens_generated) + end;
    let line4 = pylon_stats::counter_field(",\"tokens_processed\":"@, tokens_processed) + line5;
    match tokens_generated {
        Some(count) => {
            lemma_counter(",\"tokens_generated\":"@, count, end);
            assert(line5[0] == generated[0] && line5[9] == generated[9]);
        },
        None => {
            assert(line5 =~= end);
            lemma_no_counter(end, generated, 2);
        },
    }
    match tokens_processed {
        Some(count) => {
            lemma_counter(",\"tokens_processed\":"@, count, line5);
        },
        None => {
            assert(line4 =~= line5);
            if tokens_generated is Some {
                lemma_no_counter(line5, processed, 9);
            } else {
                lemma_no_counter(line5, processed, 2);
            }
        },
    }
}

/// A line tells a subscriber what it was written from: whoever reads it
/// finds the request id, the model, the counters that were given and no others,
/// and whether the request is over.
pub proof fn lines_are_read_back(
    request_id: Seq<char>,
    model: Seq<char>,
    tokens_processed: Option<u64>,
    tokens_generated: Option<u64>,
    finished: bool,
)
    ensures
        ({
            let line = pylon_stats::stats_line(
                request_id,
                model,
                tokens_processed,
                tokens_generated,
                finished,
            );
            &&& event_reading(line) is Some
            &&& event_reading(line)->0.request_id == request_id
            &&& event_reading(line)->0.model == model
            &&& event_reading(line)->0.tokens_processed == count(tokens_processed)
            &&& event_reading(line)->0.tokens_generated == count(tokens_generated)
            &&& event_reading(line)->0.finished == finished
        }),
{
    let head = bytes_of("{\"v\":1,\"type\":\"stats\",\"request_id\":"@);
    let middle = bytes_of(",\"model\":"@);
    let second = pylon_stats::counter_field(",\"tokens_generated\":"@, tokens_generated);
    let first = pylon_stats::counter_field(",\"tokens_processed\":"@, tokens_processed);
    let line5 = second + end_of(finished);
    let line4 = first + line5;
    let line3 = pylon_stats::json_string(model) + line4;
    let line2 = middle + line3;
    let line1 = pylon_stats::json_string(request_id) + line2;
    let line = pylon_stats::stats_line(
        request_id,
        model,
        tokens_processed,
        tokens_generated,
        finished,
    );
    assert(line =~= head + line1);
    lemma_behind(head, line1);
    lemma_string_reading(request_id, line2);
    lemma_behind(middle, line3);
    lemma_string_reading(model, line4);
    lemma_counters(tokens_processed, tokens_generated, finished);
    lemma_literals();
    assert(end_of(true)[12] != end_of(false)[12]);
}

/// Two lines are the same only if they say the same.
pub proof fn lines_tell_events_apart(
    request_id: Seq<char>,
    model: Seq<char>,
    tokens_processed: Option<u64>,
    tokens_generated: Option<u64>,
    finished: bool,
    other_id: Seq<char>,
    other_model: Seq<char>,
    other_processed: Option<u64>,
    other_generated: Option<u64>,
    other_finished: bool,
)
    requires
        pylon_stats::stats_line(request_id, model, tokens_processed, tokens_generated, finished)
            == pylon_stats::stats_line(
            other_id,
            other_model,
            other_processed,
            other_generated,
            other_finished,
        ),
    ensures
        request_id == other_id,
        model == other_model,
        tokens_processed == other_processed,
        tokens_generated == other_generated,
        finished == other_finished,
{
    lines_are_read_back(request_id, model, tokens_processed, tokens_generated, finished);
    lines_are_read_back(other_id, other_model, other_processed, other_generated, other_finished);
}

} // verus!
