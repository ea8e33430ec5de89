//! Request headers.

use crate::text;
use vstd::prelude::*;

verus! {

/// `http::HeaderMap`, header values by header name.
#[verifier::external_type_specification]
#[verifier::external_body]
#[verifier::reject_recursive_types(T)]
pub struct ExHeaderMap<T>(axum::http::HeaderMap<T>);

/// `http::HeaderValue`, the bytes of one value. Nothing is claimed of it.
#[verifier::external_type_specification]
#[verifier::external_body]
pub struct ExHeaderValue(axum::http::HeaderValue);

/// The values of each header, in the order in which they were added. Names are
/// in lower case.
pub uninterp spec fn header_contents(
    headers: axum::http::HeaderMap<axum::http::HeaderValue>,
) -> Map<Seq<char>, Seq<Seq<u8>>>;

/// An ASCII letter in lower case, any other character as it is.
pub open spec fn lower_char(c: char) -> char {
    if 'A' <= c <= 'Z' {
        (c as u32 + 32) as char
    } else {
        c
    }
}

pub open spec fn lower_case(name: Seq<char>) -> Seq<char> {
    name.map_values(|c: char| lower_char(c))
}

/// The values of a header, whose name may be in any case.
pub open spec fn values_of(contents: Map<Seq<char>, Seq<Seq<u8>>>, name: Seq<char>) -> Seq<
    Seq<u8>,
> {
    if contents.contains_key(lower_case(name)) {
        contents[lower_case(name)]
    } else {
        Seq::empty()
    }
}

pub open spec fn byte_views(values: Seq<Vec<u8>>) -> Seq<Seq<u8>> {
    values.map_values(|value: Vec<u8>| value@)
}

/// `HeaderMap::get_all`: all values of a header, in order. The name may be in
/// any case. A name that no header can have has no values.
#[verifier::external_body]
pub(crate) fn all_values(
    headers: &axum::http::HeaderMap<axum::http::HeaderValue>,
    name: &str,
) -> (r: Vec<Vec<u8>>)
    ensures
        byte_views(r@) == values_of(header_contents(*headers), name@),
{
    headers.get_all(name).iter().map(|value| value.as_bytes().to_vec()).collect()
}

/// `HeaderMap::get`: the first value of a header, if it has one.
#[verifier::external_body]
pub(crate) fn first_value(
    headers: &axum::http::HeaderMap<axum::http::HeaderValue>,
    name: &str,
) -> (r: Option<Vec<u8>>)
    ensures
        r is Some <==> values_of(header_contents(*headers), name@).len() > 0,
        r is Some ==> r->0@ == values_of(header_contents(*headers), name@)[0],
{
    headers.get(name).map(|value| value.as_bytes().to_vec())
}

/// Whether a byte stands for itself in a header's text.
pub open spec fn is_visible(byte: u8) -> bool {
    32 <= byte < 127 || byte == 9
}

/// The text of a header value, if it has one: every byte is visible.
pub open spec fn header_text(value: Seq<u8>) -> Option<Seq<char>> {
    if forall|i: int| 0 <= i < value.len() ==> is_visible(#[trigger] value[i]) {
        Some(Seq::new(value.len(), |i: int| value[i] as char))
    } else {
        None
    }
}

/// Reads a header value as text.
pub fn read_value(value: &[u8]) -> (r: Option<String>)
    ensures
        match r {
            Some(text) => header_text(value@) == Some(text@),
            None => header_text(value@) is None,
        },
{
    let mut text = String::new();
    let mut i: usize = 0;
    while i < value.len()
        invariant
            i <= value@.len(),
            forall|j: int| 0 <= j < i ==> is_visible(#[trigger] value@[j]),
            text@ == Seq::new(i as nat, |j: int| value@[j] as char),
        decreases value@.len() - i,
    {
        let byte: u8 = value[i];
        if !((32 <= byte && byte < 127) || byte == 9) {
            assert(!is_visible(value@[i as int]));
            return None;
        }
        text.push(byte as char);
        i += 1;
        assert(text@ =~= Seq::new(i as nat, |j: int| value@[j] as char));
    }
    Some(text)
}

/// The values of a header that hold some text, in order.
pub open spec fn texts_of(values: Seq<Seq<u8>>) -> Seq<Seq<char>>
    decreases values.len(),
{
    if values.len() == 0 {
        Seq::empty()
    } else {
        let before = texts_of(values.drop_last());
        match header_text(values.last()) {
            Some(text) => if text.len() > 0 {
                before.push(text)
            } else {
                before
            },
            None => before,
        }
    }
}

/// Texts with a comma and a space between them.
pub open spec fn comma_joined(texts: Seq<Seq<char>>) -> Seq<char>
    decreases texts.len(),
{
    if texts.len() == 0 {
        Seq::empty()
    } else if texts.len() == 1 {
        texts[0]
    } else {
        comma_joined(texts.drop_last()) + ", "@ + texts.last()
    }
}

/// What is captured of a header: its values that hold some text, joined.
pub open spec fn captured(contents: Map<Seq<char>, Seq<Seq<u8>>>, name: Seq<char>) -> Seq<char> {
    comma_joined(texts_of(values_of(contents, name)))
}

/// Joins the texts of header values.
pub fn join_values(values: &Vec<Vec<u8>>) -> (r: String)
    ensures
        r@ == comma_joined(texts_of(byte_views(values@))),
{
    let mut joined = String::new();
    let mut count: u64 = 0;
    let ghost mut texts: Seq<Seq<char>> = Seq::empty();
    let ghost all = byte_views(values@);
    let mut i: usize = 0;
    assert(all.take(0) =~= Seq::empty());
    while i < values.len()
        invariant
            i <= values@.len(),
            all == byte_views(values@),
            texts == texts_of(all.take(i as int)),
            joined@ == comma_joined(texts),
            count == texts.len(),
            count <= i,
        decreases values@.len() - i,
    {
        proof {
            assert(all.take(i + 1).drop_last() =~= all.take(i as int));
            assert(all.take(i + 1).last() == values@[i as int]@);
        }
        match read_value(values[i].as_slice()) {
            Some(text) => {
                if !text::is_blank(text.as_str()) {
                    if count > 0 {
                        joined.append(", ");
                    }
                    joined.append(text.as_str());
                    count += 1;
                    proof {
                        let more = texts.push(text@);
                        assert(more.drop_last() =~= texts);
                        if texts.len() == 0 {
                            assert(joined@ =~= text@);
                        } else {
                            assert(joined@ =~= comma_joined(texts) + ", "@ + text@);
                        }
                        texts = more;
                    }
                }
            },
            None => {},
        }
        i += 1;
    }
    assert(all.take(all.len() as int) =~= all);
    joined
}

/// Two names are the same header just if they differ in nothing but the case of
/// ASCII letters.
pub proof fn names_are_compared_without_case(
    contents: Map<Seq<char>, Seq<Seq<u8>>>,
    a: Seq<char>,
    b: Seq<char>,
)
    requires
        a.len() == b.len(),
        forall|i: int|
            0 <= i < a.len() ==> #[trigger] a[i] == b[i] || ('A' <= a[i] <= 'Z' && b[i] as u32
                == a[i] as u32 + 32) || ('A' <= b[i] <= 'Z' && a[i] as u32 == b[i] as u32 + 32),
    ensures
        values_of(contents, a) == values_of(contents, b),
        lower_case(a).len() == a.len(),
        forall|i: int|
            0 <= i < a.len() ==> !('A' <= #[trigger] lower_case(a)[i] <= 'Z') && (!('A' <= a[i]
                <= 'Z') ==> lower_case(a)[i] == a[i]),
        contents.contains_key(lower_case(a)) ==> values_of(contents, a) == contents[lower_case(a)],
        !contents.contains_key(lower_case(a)) ==> values_of(contents, a).len() == 0,
{
    assert forall|i: int| 0 <= i < a.len() implies #[trigger] lower_char(a[i]) == lower_char(
        b[i],
    ) by {
        assert(a[i] == a[i]);
    }
    assert(lower_case(a) =~= lower_case(b));
}

/// A value is text just if it is made of visible ASCII characters, spaces and
/// tabs, and then it is the text of these characters.
pub proof fn values_are_visible_ascii(value: Seq<u8>)
    ensures
        header_text(value) is Some <==> forall|i: int|
            0 <= i < value.len() ==> 32 <= #[trigger] value[i] <= 126 || value[i] == 9,
        header_text(value) matches Some(text) ==> text.len() == value.len() && forall|i: int|
            0 <= i < value.len() ==> #[trigger] text[i] as u32 == value[i] as u32,
{
    if forall|i: int| 0 <= i < value.len() ==> 32 <= #[trigger] value[i] <= 126 || value[i] == 9 {
        assert forall|i: int| 0 <= i < value.len() implies is_visible(#[trigger] value[i]) by {}
    }
    if forall|i: int| 0 <= i < value.len() ==> is_visible(#[trigger] value[i]) {
        assert forall|i: int| 0 <= i < value.len() implies 32 <= #[trigger] value[i] <= 126
            || value[i] == 9 by {
            assert(is_visible(value[i]));
        }
    }
}

/// Of a header every value that holds some text is captured, in order, with a
/// comma and a space between each two, and nothing of the others.
pub proof fn values_are_joined_in_order(values: Seq<Seq<u8>>, value: Seq<u8>)
    ensures
        comma_joined(texts_of(Seq::empty())).len() == 0,
        header_text(value) is None || header_text(value)->0.len() == 0 ==> comma_joined(
            texts_of(values.push(value)),
        ) == comma_joined(texts_of(values)),
        header_text(value) is Some && header_text(value)->0.len() > 0 && texts_of(values).len()
            == 0 ==> comma_joined(texts_of(values.push(value))) == header_text(value)->0,
        header_text(value) is Some && header_text(value)->0.len() > 0 && texts_of(values).len()
            > 0 ==> comma_joined(texts_of(values.push(value))) == comma_joined(texts_of(values))
            + ", "@ + header_text(value)->0,
        texts_of(values.push(value)).len() > 0 <==> texts_of(values).len() > 0 || (header_text(
            value,
        ) is Some && header_text(value)->0.len() > 0),
{
    assert(values.push(value).drop_last() =~= values);
    if header_text(value) is Some {
        let more = texts_of(values).push(header_text(value)->0);
        assert(more.drop_last() =~= texts_of(values));
    }
}

} // verus!
