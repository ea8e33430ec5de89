//! Searching and splitting text.

use crate::seqs;
use crate::text::chars_of;
use vstd::prelude::*;

verus! {

/// Where `c` first occurs in `text` from `from` on, if it does.
pub open spec fn index_from(text: Seq<char>, c: char, from: int) -> Option<int>
    decreases text.len() - from,
{
    if from >= text.len() {
        None
    } else if text[from] == c {
        Some(from)
    } else {
        index_from(text, c, from + 1)
    }
}

pub fn find_char(text: &Vec<char>, c: char, from: usize) -> (r: Option<usize>)
    requires
        from <= text@.len(),
    ensures
        match r {
            Some(i) => from <= i < text@.len() && index_from(text@, c, from as int) == Some(i as int),
            None => index_from(text@, c, from as int) is None,
        },
{
    let mut i: usize = from;
    while i < text.len()
        invariant
            from <= i <= text@.len(),
            index_from(text@, c, from as int) == index_from(text@, c, i as int),
        decreases text@.len() - i,
    {
        if text[i] == c {
            return Some(i);
        }
        i += 1;
    }
    None
}

/// Whether `part` occurs in `text` at `at`.
pub open spec fn occurs_at(text: Seq<char>, part: Seq<char>, at: int) -> bool {
    0 <= at && at + part.len() <= text.len() && text.subrange(at, at + part.len()) == part
}

/// Where `part` first occurs in `text` from `from` on, if it does.
pub open spec fn part_from(text: Seq<char>, part: Seq<char>, from: int) -> Option<int>
    decreases text.len() - from + 1,
{
    if from < 0 || from > text.len() {
        None
    } else if occurs_at(text, part, from) {
        Some(from)
    } else {
        part_from(text, part, from + 1)
    }
}

fn is_at(text: &Vec<char>, part: &Vec<char>, at: usize) -> (r: bool)
    requires
        at <= text@.len(),
    ensures
        r == occurs_at(text@, part@, at as int),
{
    let len: usize = text.len();
    if len - at < part.len() {
        return false;
    }
    let mut i: usize = 0;
    while i < part.len()
        invariant
            i <= part@.len(),
            len == text@.len(),
            at + part@.len() <= text@.len(),
            forall|j: int| 0 <= j < i ==> text@[at + j] == part@[j],
        decreases part@.len() - i,
    {
        if text[at + i] != part[i] {
            proof {
                let window = text@.subrange(at as int, at + part@.len());
                assert(window[i as int] == text@[at + i]);
            }
            return false;
        }
        i += 1;
    }
    assert(text@.subrange(at as int, at + part@.len()) =~= part@);
    true
}

pub fn find_part(text: &Vec<char>, part: &Vec<char>) -> (r: Option<usize>)
    ensures
        match r {
            Some(i) => i <= text@.len() && part_from(text@, part@, 0) == Some(i as int),
            None => part_from(text@, part@, 0) is None,
        },
{
    let mut i: usize = 0;
    while i < text.len()
        invariant
            i <= text@.len(),
            part_from(text@, part@, 0) == part_from(text@, part@, i as int),
        decreases text@.len() - i,
    {
        if is_at(text, part, i) {
            return Some(i);
        }
        i += 1;
    }
    if is_at(text, part, i) {
        return Some(i);
    }
    assert(part_from(text@, part@, i + 1) is None);
    None
}

/// Whether `text` begins with `part`.
pub open spec fn begins_with(text: Seq<char>, part: Seq<char>) -> bool {
    occurs_at(text, part, 0)
}

/// Whether `text` ends with `part`.
pub open spec fn ends_with(text: Seq<char>, part: Seq<char>) -> bool {
    text.len() >= part.len() && occurs_at(text, part, text.len() - part.len())
}

pub fn has_prefix(text: &str, part: &str) -> (r: bool)
    ensures
        r == begins_with(text@, part@),
{
    let chars = chars_of(text);
    let pattern = chars_of(part);
    is_at(&chars, &pattern, 0)
}

pub fn has_suffix(text: &str, part: &str) -> (r: bool)
    ensures
        r == ends_with(text@, part@),
{
    let chars = chars_of(text);
    let pattern = chars_of(part);
    if chars.len() < pattern.len() {
        return false;
    }
    is_at(&chars, &pattern, chars.len() - pattern.len())
}

/// `text` without the `c`s at its end.
pub open spec fn without_trailing(text: Seq<char>, c: char) -> Seq<char>
    decreases text.len(),
{
    if text.len() > 0 && text.last() == c {
        without_trailing(text.drop_last(), c)
    } else {
        text
    }
}

/// The characters from `from` up to `to` without the `c`s at their end.
pub fn part_without_trailing(text: &Vec<char>, from: usize, to: usize, c: char) -> (r: String)
    requires
        from <= to <= text@.len(),
    ensures
        r@ == without_trailing(text@.subrange(from as int, to as int), c),
{
    let mut end: usize = to;
    let ghost all = text@.subrange(from as int, to as int);
    while end > from && text[end - 1] == c
        invariant
            from <= end <= to <= text@.len(),
            without_trailing(text@.subrange(from as int, end as int), c) == without_trailing(
                all,
                c,
            ),
        decreases end - from,
    {
        proof {
            let part = text@.subrange(from as int, end as int);
            assert(part.last() == text@[end - 1]);
            assert(part.drop_last() =~= text@.subrange(from as int, end - 1));
        }
        end -= 1;
    }
    proof {
        if end > from {
            assert(text@.subrange(from as int, end as int).last() == text@[end - 1]);
        }
    }
    copy_part(text, from, end)
}

/// The characters from `from` up to `to`.
pub fn copy_part(text: &Vec<char>, from: usize, to: usize) -> (r: String)
    requires
        from <= to <= text@.len(),
    ensures
        r@ == text@.subrange(from as int, to as int),
{
    let mut out = String::new();
    let mut i: usize = from;
    while i < to
        invariant
            from <= i <= to <= text@.len(),
            out@ == text@.subrange(from as int, i as int),
        decreases to - i,
    {
        out.push(text[i]);
        assert(text@.subrange(from as int, i + 1) =~= text@.subrange(from as int, i as int).push(
            text@[i as int],
        ));
        i += 1;
    }
    out
}

/// A line without its line ending.
pub open spec fn bare_line(line: Seq<char>) -> Seq<char> {
    if line.len() > 0 && line.last() == '\r' {
        line.drop_last()
    } else {
        line
    }
}

/// The lines of `text` from `from` on. A line ends with a line feed, which a
/// carriage return may come before. What is left at the end is a line too,
/// unless it is empty.
pub open spec fn lines_from(text: Seq<char>, from: int) -> Seq<Seq<char>>
    decreases text.len() - from,
{
    if from < 0 || from >= text.len() {
        Seq::empty()
    } else {
        match index_from(text, '\n', from) {
            Some(end) => if from <= end < text.len() {
                seq![bare_line(text.subrange(from, end))] + lines_from(text, end + 1)
            } else {
                Seq::empty()
            },
            None => seq![text.skip(from)],
        }
    }
}

pub open spec fn lines_of(text: Seq<char>) -> Seq<Seq<char>> {
    lines_from(text, 0)
}

/// Splits `text` into its lines.
pub fn split_lines(text: &str) -> (r: Vec<String>)
    ensures
        seqs::texts(r@) == lines_of(text@),
{
    let chars = chars_of(text);
    let mut lines: Vec<String> = Vec::new();
    let mut from: usize = 0;
    assert(seqs::texts(lines@) + lines_from(text@, 0) =~= lines_of(text@));
    while from < chars.len()
        invariant
            from <= chars@.len(),
            chars@ == text@,
            seqs::texts(lines@) + lines_from(text@, from as int) == lines_of(text@),
        decreases chars@.len() - from,
    {
        let ghost done = seqs::texts(lines@);
        match find_char(&chars, '\n', from) {
            Some(end) => {
                let mut stop: usize = end;
                if end > from && chars[end - 1] == '\r' {
                    stop = end - 1;
                }
                proof {
                    let line = text@.subrange(from as int, end as int);
                    if end > from {
                        assert(line.last() == text@[end - 1]);
                    }
                    assert(bare_line(line) =~= text@.subrange(from as int, stop as int));
                }
                lines.push(copy_part(&chars, from, stop));
                proof {
                    let line = bare_line(text@.subrange(from as int, end as int));
                    assert(seqs::texts(lines@) =~= done.push(line));
                    assert(done + (seq![line] + lines_from(text@, end + 1)) =~= done.push(line)
                        + lines_from(text@, end + 1));
                }
                from = end + 1;
            },
            None => {
                lines.push(copy_part(&chars, from, chars.len()));
                proof {
                    assert(text@.subrange(from as int, text@.len() as int) =~= text@.skip(
                        from as int,
                    ));
                    assert(seqs::texts(lines@) =~= done + seq![text@.skip(from as int)]);
                }
                return lines;
            },
        }
    }
    assert(seqs::texts(lines@) + lines_from(text@, from as int) =~= seqs::texts(lines@));
    lines
}

/// `lines` with a line feed between each two.
pub open spec fn joined(lines: Seq<Seq<char>>) -> Seq<char>
    decreases lines.len(),
{
    if lines.len() == 0 {
        Seq::empty()
    } else if lines.len() == 1 {
        lines[0]
    } else {
        joined(lines.drop_last()) + seq!['\n'] + lines.last()
    }
}

/// Joins lines.
pub fn join_lines(lines: &Vec<String>) -> (r: String)
    ensures
        r@ == joined(seqs::texts(lines@)),
{
    let mut out = String::new();
    let ghost all = seqs::texts(lines@);
    let mut i: usize = 0;
    assert(all.take(0) =~= Seq::empty());
    while i < lines.len()
        invariant
            i <= lines@.len(),
            all == seqs::texts(lines@),
            out@ == joined(all.take(i as int)),
        decreases lines@.len() - i,
    {
        if i > 0 {
            out.push('\n');
        }
        out.append(lines[i].as_str());
        proof {
            let more = all.take(i + 1);
            assert(more.drop_last() =~= all.take(i as int));
            assert(more.last() == lines@[i as int]@);
            if i == 0 {
                assert(out@ =~= more[0]);
            } else {
                assert(out@ =~= joined(all.take(i as int)) + seq!['\n'] + more.last());
            }
        }
        i += 1;
    }
    assert(all.take(all.len() as int) =~= all);
    out
}

/// What stands between double quotes in `text`, all of it together. `inside`
/// says whether the text begins inside quotes.
pub open spec fn quoted(text: Seq<char>, inside: bool) -> Seq<char>
    decreases text.len(),
{
    if text.len() == 0 {
        Seq::empty()
    } else if text[0] == '"' {
        quoted(text.skip(1), !inside)
    } else if inside {
        seq![text[0]] + quoted(text.skip(1), inside)
    } else {
        quoted(text.skip(1), inside)
    }
}

/// What stands between double quotes, or `None` where there is no quote.
pub fn read_quoted(text: &str) -> (r: Option<String>)
    ensures
        r is Some <==> text@.contains('"'),
        r is Some ==> r->0@ == quoted(text@, false),
{
    let chars = chars_of(text);
    let mut out = String::new();
    let mut inside = false;
    let mut found = false;
    let mut i: usize = 0;
    assert(chars@.skip(0) =~= chars@);
    assert(out@ + quoted(chars@.skip(0), false) =~= quoted(text@, false));
    while i < chars.len()
        invariant
            i <= chars@.len(),
            chars@ == text@,
            out@ + quoted(chars@.skip(i as int), inside) == quoted(text@, false),
            found <==> exists|j: int| 0 <= j < i && chars@[j] == '"',
        decreases chars@.len() - i,
    {
        let c: char = chars[i];
        let ghost rest = chars@.skip(i as int);
        let ghost done = out@;
        assert(rest[0] == c);
        assert(rest.skip(1) =~= chars@.skip(i + 1));
        if c == '"' {
            inside = !inside;
            found = true;
        } else if inside {
            out.push(c);
            assert(done.push(c) + quoted(rest.skip(1), inside) =~= done + (seq![c] + quoted(
                rest.skip(1),
                inside,
            )));
        }
        i += 1;
    }
    assert(out@ + quoted(chars@.skip(i as int), inside) =~= out@);
    if found {
        Some(out)
    } else {
        None
    }
}

/// The first occurrence of a character from some place on is where it is found.
pub proof fn first_occurrence_is_found(text: Seq<char>, c: char, from: int)
    requires
        0 <= from,
    ensures
        match index_from(text, c, from) {
            Some(i) => from <= i < text.len() && text[i] == c && forall|j: int|
                from <= j < i ==> #[trigger] text[j] != c,
            None => forall|j: int| from <= j < text.len() ==> #[trigger] text[j] != c,
        },
    decreases text.len() - from,
{
    if from < text.len() && text[from] != c {
        first_occurrence_is_found(text, c, from + 1);
    }
}

/// The first occurrence of a part from some place on is where it is found.
pub proof fn first_part_is_found(text: Seq<char>, part: Seq<char>, from: int)
    requires
        0 <= from,
    ensures
        match part_from(text, part, from) {
            Some(i) => from <= i && i + part.len() <= text.len() && text.subrange(
                i,
                i + part.len(),
            ) == part && forall|j: int|
                #![trigger text.subrange(j, j + part.len())]
                from <= j < i && j + part.len() <= text.len() ==> text.subrange(
                    j,
                    j + part.len(),
                ) != part,
            None => forall|j: int|
                #![trigger text.subrange(j, j + part.len())]
                from <= j && j + part.len() <= text.len() ==> text.subrange(j, j + part.len())
                    != part,
        },
    decreases text.len() - from + 1,
{
    if from <= text.len() && !occurs_at(text, part, from) {
        first_part_is_found(text, part, from + 1);
    }
}

/// A text begins with what was put in front of it, and ends with what was put
/// behind it, and with nothing else of that length.
pub proof fn beginnings_and_endings(front: Seq<char>, back: Seq<char>, part: Seq<char>)
    ensures
        begins_with(front + back, front),
        ends_with(front + back, back),
        part.len() == front.len() && begins_with(front + back, part) ==> part == front,
        part.len() == back.len() && ends_with(front + back, part) ==> part == back,
        part.len() > front.len() + back.len() ==> !begins_with(front + back, part) && !ends_with(
            front + back,
            part,
        ),
{
    let all = front + back;
    assert(all.subrange(0, front.len() as int) =~= front);
    assert(all.subrange(front.len() as int, all.len() as int) =~= back);
}

/// What is cut off at the end is all of that character, and only that.
pub proof fn only_trailing_characters_are_cut(text: Seq<char>, c: char)
    ensures
        ({
            let kept = without_trailing(text, c);
            &&& kept.len() <= text.len()
            &&& kept == text.take(kept.len() as int)
            &&& kept.len() > 0 ==> kept.last() != c
            &&& forall|i: int| kept.len() <= i < text.len() ==> #[trigger] text[i] == c
        }),
    decreases text.len(),
{
    let kept = without_trailing(text, c);
    if text.len() > 0 && text.last() == c {
        let front = text.drop_last();
        only_trailing_characters_are_cut(front, c);
        assert(front.take(kept.len() as int) =~= text.take(kept.len() as int));
        assert forall|i: int| kept.len() <= i < text.len() implies #[trigger] text[i] == c by {
            if i < front.len() {
                assert(front[i] == c);
            }
        }
    } else {
        assert(text.take(text.len() as int) =~= text);
    }
}

proof fn lemma_index_shift(text: Seq<char>, c: char, k: int, from: int)
    requires
        0 <= k <= text.len(),
        0 <= from,
    ensures
        index_from(text, c, k + from) == match index_from(text.skip(k), c, from) {
            Some(i) => Some(i + k),
            None => None,
        },
    decreases text.len() - k - from,
{
    if k + from < text.len() {
        assert(text.skip(k)[from] == text[k + from]);
        if text[k + from] != c {
            lemma_index_shift(text, c, k, from + 1);
        }
    }
}

proof fn lemma_lines_shift(text: Seq<char>, k: int, from: int)
    requires
        0 <= k <= text.len(),
        0 <= from,
    ensures
        lines_from(text, k + from) == lines_from(text.skip(k), from),
    decreases text.len() - k - from,
{
    if k + from < text.len() {
        lemma_index_shift(text, '\n', k, from);
        first_occurrence_is_found(text.skip(k), '\n', from);
        match index_from(text.skip(k), '\n', from) {
            Some(end) => {
                lemma_lines_shift(text, k, end + 1);
                assert(text.subrange(k + from, end + k) =~= text.skip(k).subrange(from, end));
            },
            None => {
                assert(text.skip(k + from) =~= text.skip(k).skip(from));
            },
        }
    }
}

/// A text is split at its line feeds: what stands in front of the first one is
/// the first line, without the carriage return that may belong to the line feed,
/// and the rest is split likewise. A text without line feeds is one line, if it
/// is not empty.
pub proof fn lines_are_split_at_line_feeds(line: Seq<char>, rest: Seq<char>)
    requires
        !line.contains('\n'),
    ensures
        lines_of(Seq::empty()).len() == 0,
        line.len() > 0 ==> lines_of(line) == seq![line],
        lines_of(line + seq!['\n'] + rest) == seq![
            if line.len() > 0 && line.last() == '\r' {
                line.drop_last()
            } else {
                line
            },
        ] + lines_of(rest),
{
    let all = line + seq!['\n'] + rest;
    let n = line.len() as int;
    assert forall|j: int| 0 <= j < n implies #[trigger] line[j] != '\n' by {
        assert(line.contains(line[j]));
    }
    first_occurrence_is_found(line, '\n', 0);
    assert(line.skip(0) =~= line);
    first_occurrence_is_found(all, '\n', 0);
    assert(all[n] == '\n');
    assert forall|j: int| 0 <= j < n implies #[trigger] all[j] != '\n' by {
        assert(all[j] == line[j]);
    }
    assert(index_from(all, '\n', 0) == Some(n));
    assert(all.subrange(0, n) =~= line);
    lemma_lines_shift(all, n + 1, 0);
    assert(all.skip(n + 1) =~= rest);
}

/// Joined lines stand one behind the other with a line feed between each two.
pub proof fn lines_are_joined_in_order(lines: Seq<Seq<char>>, line: Seq<char>)
    ensures
        joined(Seq::empty()).len() == 0,
        joined(seq![line]) == line,
        lines.len() > 0 ==> joined(lines.push(line)) == joined(lines) + seq!['\n'] + line,
{
    assert(lines.push(line).drop_last() =~= lines);
}

/// What stands between a pair of quotes is kept, and what stands in front of it
/// is not. The rest goes on likewise.
pub proof fn quotes_hold_what_is_kept(front: Seq<char>, part: Seq<char>, rest: Seq<char>)
    requires
        !front.contains('"'),
        !part.contains('"'),
    ensures
        quoted(front, false).len() == 0,
        quoted(front + seq!['"'] + part + seq!['"'] + rest, false) == part + quoted(rest, false),
    decreases front.len() + part.len(),
{
    let all = front + seq!['"'] + part + seq!['"'] + rest;
    if front.len() > 0 {
        assert(front.contains(front[0]));
        let less = front.skip(1);
        assert(!less.contains('"')) by {
            if less.contains('"') {
                let j = choose|j: int| 0 <= j < less.len() && less[j] == '"';
                assert(front[j + 1] == '"');
            }
        }
        quotes_hold_what_is_kept(less, part, rest);
        assert(all.skip(1) =~= less + seq!['"'] + part + seq!['"'] + rest);
    } else {
        assert(all.skip(1) =~= part + seq!['"'] + rest);
        lemma_inside(part, rest);
    }
}

proof fn lemma_inside(part: Seq<char>, rest: Seq<char>)
    requires
        !part.contains('"'),
    ensures
        quoted(part + seq!['"'] + rest, true) == part + quoted(rest, false),
    decreases part.len(),
{
    let all = part + seq!['"'] + rest;
    if part.len() == 0 {
        assert(all.skip(1) =~= rest);
        assert(part + quoted(rest, false) =~= quoted(rest, false));
    } else {
        assert(part.contains(part[0]));
        let less = part.skip(1);
        assert(!less.contains('"')) by {
            if less.contains('"') {
                let j = choose|j: int| 0 <= j < less.len() && less[j] == '"';
                assert(part[j + 1] == '"');
            }
        }
        lemma_inside(less, rest);
        assert(all.skip(1) =~= less + seq!['"'] + rest);
        assert(seq![part[0]] + (less + quoted(rest, false)) =~= part + quoted(rest, false));
    }
}

} // verus!
