//! UTF-8 validity of the text a request's spans resolve to.
use vstd::prelude::*;
use crate::cursor::ParseError;
use crate::request::{buf_str, Request, RequestModel, Span};

verus! {

pub open spec fn is_cont(b: u8) -> bool {
    0x80 <= b <= 0xBF
}

/// The length of the well-formed UTF-8 sequence that starts at `i`, or 0 when
/// none does (overlong forms, surrogates and code points past U+10FFFF are
/// not well formed).
pub open spec fn utf8_len_at(s: Seq<u8>, i: int) -> int {
    let n = s.len();
    let b0 = s[i];
    if b0 < 0x80 {
        1
    } else if 0xC2 <= b0 <= 0xDF {
        if i + 1 < n && is_cont(s[i + 1]) {
            2
        } else {
            0
        }
    } else if 0xE0 <= b0 <= 0xEF {
        let lo: u8 = if b0 == 0xE0 { 0xA0 } else { 0x80 };
        let hi: u8 = if b0 == 0xED { 0x9F } else { 0xBF };
        if i + 2 < n && lo <= s[i + 1] <= hi && is_cont(s[i + 2]) {
            3
        } else {
            0
        }
    } else if 0xF0 <= b0 <= 0xF4 {
        let lo: u8 = if b0 == 0xF0 { 0x90 } else { 0x80 };
        let hi: u8 = if b0 == 0xF4 { 0x8F } else { 0xBF };
        if i + 3 < n && lo <= s[i + 1] <= hi && is_cont(s[i + 2]) && is_cont(s[i + 3]) {
            4
        } else {
            0
        }
    } else {
        0
    }
}

/// The bytes from `i` on are a sequence of well-formed UTF-8 sequences.
pub open spec fn utf8_from(s: Seq<u8>, i: int) -> bool
    decreases s.len() - i,
{
    if i >= s.len() || i < 0 {
        true
    } else {
        let l = utf8_len_at(s, i);
        l > 0 && utf8_from(s, i + l)
    }
}

pub open spec fn valid_utf8(s: Seq<u8>) -> bool {
    utf8_from(s, 0)
}

/// Every span of the request resolves to valid UTF-8 in `s`.
pub open spec fn text_ok(req: RequestModel, s: Seq<u8>) -> bool {
    &&& valid_utf8(req.line.method.bytes(s))
    &&& valid_utf8(req.line.uri.bytes(s))
    &&& valid_utf8(req.line.version.bytes(s))
    &&& forall|i: int|
        0 <= i < req.headers.len() ==> valid_utf8((#[trigger] req.headers[i]).name.bytes(s))
            && valid_utf8(req.headers[i].value.bytes(s))
}

fn cont(b: u8) -> (r: bool)
    ensures
        r == is_cont(b),
{
    0x80 <= b && b <= 0xBF
}

/// The length of the well-formed UTF-8 sequence at `i`, or 0.
fn sequence_len(v: &[u8], i: usize) -> (r: usize)
    requires
        i < v@.len(),
    ensures
        r == utf8_len_at(v@, i as int),
{
    let n = v.len();
    let b0 = v[i];
    if b0 < 0x80 {
        1
    } else if 0xC2 <= b0 && b0 <= 0xDF {
        if i + 1 < n && cont(v[i + 1]) {
            2
        } else {
            0
        }
    } else if 0xE0 <= b0 && b0 <= 0xEF {
        let lo: u8 = if b0 == 0xE0 { 0xA0 } else { 0x80 };
        let hi: u8 = if b0 == 0xED { 0x9F } else { 0xBF };
        if n - i > 2 && lo <= v[i + 1] && v[i + 1] <= hi && cont(v[i + 2]) {
            3
        } else {
            0
        }
    } else if 0xF0 <= b0 && b0 <= 0xF4 {
        let lo: u8 = if b0 == 0xF0 { 0x90 } else { 0x80 };
        let hi: u8 = if b0 == 0xF4 { 0x8F } else { 0xBF };
        if n - i > 3 && lo <= v[i + 1] && v[i + 1] <= hi && cont(v[i + 2]) && cont(v[i + 3]) {
            4
        } else {
            0
        }
    } else {
        0
    }
}

/// Whether `v` is valid UTF-8.
pub fn is_valid_utf8(v: &[u8]) -> (r: bool)
    ensures
        r == valid_utf8(v@),
{
    let mut i: usize = 0;
    while i < v.len()
        invariant
            0 <= i <= v@.len(),
            utf8_from(v@, 0) == utf8_from(v@, i as int),
        decreases v@.len() - i,
    {
        let l = sequence_len(v, i);
        if l == 0 {
            return false;
        }
        i = i + l;
    }
    true
}

/// Checks that the bytes of `span` in `buf` are valid UTF-8; fails with
/// `InvalidEncoding` when they are not.
pub fn validate_span(buf: &[u8], span: Span) -> (r: Result<(), ParseError>)
    requires
        span.within(buf@.len() as int),
    ensures
        r == (if valid_utf8(span.bytes(buf@)) {
            Ok::<(), ParseError>(())
        } else {
            Err(ParseError::InvalidEncoding)
        }),
{
    let bytes = buf_str(buf, span);
    if is_valid_utf8(bytes.as_slice()) {
        Ok(())
    } else {
        Err(ParseError::InvalidEncoding)
    }
}

impl Request {
    /// Checks that the method, URI, version and every header name and value
    /// are valid UTF-8 in `buf`; fails with `InvalidEncoding` otherwise.
    pub fn check_encoding(&self, buf: &[u8]) -> (r: Result<(), ParseError>)
        requires
            self.fits(buf@.len() as int),
        ensures
            r == (if text_ok(self@, buf@) {
                Ok::<(), ParseError>(())
            } else {
                Err(ParseError::InvalidEncoding)
            }),
    {
        if validate_span(buf, self.line.method).is_err() || validate_span(buf, self.line.uri).is_err()
            || validate_span(buf, self.line.version).is_err() {
            return Err(ParseError::InvalidEncoding);
        }
        let mut i: usize = 0;
        while i < self.headers.len()
            invariant
                self.fits(buf@.len() as int),
                0 <= i <= self.headers@.len(),
                valid_utf8(self@.line.method.bytes(buf@)),
                valid_utf8(self@.line.uri.bytes(buf@)),
                valid_utf8(self@.line.version.bytes(buf@)),
                forall|k: int|
                    0 <= k < i ==> valid_utf8((#[trigger] self@.headers[k]).name.bytes(buf@))
                        && valid_utf8(self@.headers[k].value.bytes(buf@)),
            decreases self.headers@.len() - i,
        {
            let h = self.headers[i];
            assert(self@.headers[i as int] == h);
            if validate_span(buf, h.name).is_err() || validate_span(buf, h.value).is_err() {
                return Err(ParseError::InvalidEncoding);
            }
            i = i + 1;
        }
        Ok(())
    }
}

} // verus!
