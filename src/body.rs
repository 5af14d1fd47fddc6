//! The body: found through the first `Content-Length` header field, whose
//! value must be a decimal number from one up to the room left in the buffer.
use vstd::prelude::*;
use crate::cursor::{MyReader, CursorModel, ParseError};
use crate::request::{Span, HeaderField};

verus! {

/// `content-length`, in ASCII.
pub open spec fn content_length_name() -> Seq<u8> {
    seq![99u8, 111u8, 110u8, 116u8, 101u8, 110u8, 116u8, 45u8, 108u8, 101u8, 110u8, 103u8, 116u8, 104u8]
}

pub open spec fn ascii_lower(b: u8) -> u8 {
    if 65 <= b <= 90 {
        (b + 32) as u8
    } else {
        b
    }
}

/// The name span reads `Content-Length`, in any mix of letter cases.
pub open spec fn is_content_length(s: Seq<u8>, name: Span) -> bool {
    &&& name.end - name.start == content_length_name().len()
    &&& forall|k: int|
        0 <= k < content_length_name().len() ==> ascii_lower(#[trigger] s[name.start + k])
            == content_length_name()[k]
}

/// The index of the first field from `i` on named `Content-Length`, or the
/// number of fields when there is none.
pub open spec fn first_content_length(s: Seq<u8>, hs: Seq<HeaderField>, i: int) -> int
    decreases hs.len() - i,
{
    if i >= hs.len() {
        hs.len() as int
    } else if is_content_length(s, hs[i].name) {
        i
    } else {
        first_content_length(s, hs, i + 1)
    }
}

pub open spec fn is_digit(b: u8) -> bool {
    48 <= b <= 57
}

pub open spec fn all_digits(v: Seq<u8>) -> bool {
    forall|k: int| 0 <= k < v.len() ==> is_digit(#[trigger] v[k])
}

/// The number that a run of decimal digits writes.
pub open spec fn decimal(v: Seq<u8>) -> int
    decreases v.len(),
{
    if v.len() == 0 {
        0
    } else {
        decimal(v.drop_last()) * 10 + (v.last() - 48)
    }
}

/// The length that a `Content-Length` value announces, when it is a
/// non-empty run of digits whose number lies in `1..=limit`.
pub open spec fn length_spec(v: Seq<u8>, limit: int) -> Option<int> {
    if v.len() > 0 && all_digits(v) && 1 <= decimal(v) <= limit {
        Some(decimal(v))
    } else {
        None
    }
}

/// The body's span for header fields `hs` whose block ends at `header_end`:
/// none without a `Content-Length` field, an error when its value is invalid,
/// and otherwise the announced number of bytes after the block, once received.
pub open spec fn body_spec(m: CursorModel, hs: Seq<HeaderField>, header_end: int) -> Result<
    Option<Span>,
    ParseError,
> {
    let i = first_content_length(m.content, hs, 0);
    if i >= hs.len() {
        Ok(None)
    } else {
        match length_spec(hs[i].value.bytes(m.content), m.cap - header_end) {
            None => Err(ParseError::InvalidContentLength),
            Some(n) => if header_end + n <= m.content.len() {
                Ok(Some(Span { start: header_end as usize, end: (header_end + n) as usize }))
            } else {
                Err(m.end_error())
            },
        }
    }
}

pub proof fn lemma_decimal_nonneg(v: Seq<u8>)
    requires
        all_digits(v),
    ensures
        decimal(v) >= 0,
    decreases v.len(),
{
    if v.len() > 0 {
        assert(all_digits(v.drop_last()));
        lemma_decimal_nonneg(v.drop_last());
    }
}

/// Among digit runs, a longer prefix writes a number at least as large.
pub proof fn lemma_decimal_prefix_monotone(v: Seq<u8>, i: int, j: int)
    requires
        all_digits(v),
        0 <= i <= j <= v.len(),
    ensures
        decimal(v.subrange(0, i)) <= decimal(v.subrange(0, j)),
    decreases j - i,
{
    if i < j {
        lemma_decimal_prefix_monotone(v, i, j - 1);
        let w = v.subrange(0, j);
        assert(w.drop_last() =~= v.subrange(0, j - 1));
        assert(all_digits(v.subrange(0, j - 1)));
        lemma_decimal_nonneg(v.subrange(0, j - 1));
    }
}

fn lower(b: u8) -> (r: u8)
    ensures
        r == ascii_lower(b),
{
    if 65 <= b && b <= 90 {
        b + 32
    } else {
        b
    }
}

/// Whether the bytes of `name` read `Content-Length`, ignoring letter case.
pub fn names_content_length(buf: &[u8], name: Span) -> (r: bool)
    requires
        name.within(buf@.len() as int),
    ensures
        r == is_content_length(buf@, name),
{
    let expected: Vec<u8> = vec![99u8, 111u8, 110u8, 116u8, 101u8, 110u8, 116u8, 45u8, 108u8, 101u8, 110u8, 103u8, 116u8, 104u8];
    assert(expected@ =~= content_length_name());
    if name.end - name.start != expected.len() {
        return false;
    }
    let mut k: usize = 0;
    while k < expected.len()
        invariant
            expected@ == content_length_name(),
            name.within(buf@.len() as int),
            name.end - name.start == expected@.len(),
            0 <= k <= expected@.len(),
            forall|q: int| 0 <= q < k ==> ascii_lower(#[trigger] buf@[name.start + q]) == content_length_name()[q],
        decreases expected@.len() - k,
    {
        if lower(buf[name.start + k]) != expected[k] {
            return false;
        }
        k = k + 1;
    }
    true
}

/// The length that the `Content-Length` value in `value` announces, when it is
/// a non-empty run of digits whose number lies in `1..=limit`.
pub fn parse_content_length(buf: &[u8], value: Span, limit: usize) -> (r: Option<usize>)
    requires
        value.within(buf@.len() as int),
    ensures
        match length_spec(value.bytes(buf@), limit as int) {
            Some(n) => r == Some(n as usize),
            None => r is None,
        },
{
    let ghost v = value.bytes(buf@);
    if value.start == value.end {
        return None;
    }
    let mut acc: usize = 0;
    let mut i: usize = value.start;
    while i < value.end
        invariant
            value.within(buf@.len() as int),
            v == value.bytes(buf@),
            value.start <= i <= value.end,
            acc <= limit,
            all_digits(v.subrange(0, i - value.start)),
            acc == decimal(v.subrange(0, i - value.start)),
        decreases value.end - i,
    {
        let b = buf[i];
        let ghost k = i - value.start;
        if !(48 <= b && b <= 57) {
            assert(v[k] == b);
            return None;
        }
        let next: u128 = acc as u128 * 10 + (b - 48) as u128;
        assert(v.subrange(0, k + 1).drop_last() =~= v.subrange(0, k));
        assert(all_digits(v.subrange(0, k + 1)));
        if next > limit as u128 {
            proof {
                if all_digits(v) {
                    lemma_decimal_prefix_monotone(v, k + 1, v.len() as int);
                    assert(v.subrange(0, v.len() as int) =~= v);
                }
            }
            return None;
        }
        acc = next as usize;
        i = i + 1;
    }
    assert(v.subrange(0, v.len() as int) =~= v);
    if acc < 1 {
        return None;
    }
    Some(acc)
}

/// The body's span after header fields `headers` whose block ends at
/// `header_end` (see `body_spec`).
pub fn read_body(cur: &MyReader, headers: &Vec<HeaderField>, header_end: usize) -> (r: Result<
    Option<Span>,
    ParseError,
>)
    requires
        cur.wf(),
        header_end <= cur@.content.len(),
        forall|i: int|
            0 <= i < headers@.len() ==> (#[trigger] headers@[i]).name.within(
                cur@.content.len() as int,
            ) && headers@[i].value.within(cur@.content.len() as int),
    ensures
        r == body_spec(cur@, headers@, header_end as int),
{
    let buf = cur.borrow_content();
    let mut i: usize = 0;
    while i < headers.len()
        invariant
            buf@ == cur@.content,
            cur.wf(),
            header_end <= cur@.content.len(),
            0 <= i <= headers@.len(),
            first_content_length(buf@, headers@, 0) == first_content_length(buf@, headers@, i as int),
            forall|q: int|
                0 <= q < headers@.len() ==> (#[trigger] headers@[q]).name.within(
                    buf@.len() as int,
                ) && headers@[q].value.within(buf@.len() as int),
        decreases headers@.len() - i,
    {
        if names_content_length(buf, headers[i].name) {
            let limit = cur.capacity() - header_end;
            return match parse_content_length(buf, headers[i].value, limit) {
                None => Err(ParseError::InvalidContentLength),
                Some(n) => if n <= buf.len() - header_end {
                    Ok(Some(Span { start: header_end, end: header_end + n }))
                } else {
                    Err(cur.end_error())
                },
            };
        }
        i = i + 1;
    }
    Ok(None)
}

} // verus!
