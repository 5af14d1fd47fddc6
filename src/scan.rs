//! The scanners: request-line tokens, whitespace runs, header fields, the
//! header block and the body. Each step is specified as a function of the
//! cursor's input and position.
use vstd::prelude::*;
use crate::cursor::{find_from, lemma_find_from_bounds, MyReader, CursorModel, Next, ParseError, CR, LF, SP, HT, COLON};
use crate::request::{Span, HeaderField, RequestLine, Request, RequestModel};
use crate::body::{body_spec, read_body};

verus! {

/// The byte classes a scan stops at.
#[derive(Clone, Copy, Debug, PartialEq, Eq, Structural)]
pub enum Stop {
    /// A space or a CR: the end of a request-line token.
    TokenDelim,
    /// The colon after a header name, or the CR of a line without one.
    NameEnd,
    /// The CR that ends a header value.
    Cr,
    /// Anything but a space, CR or LF.
    NotWs,
    /// Anything but a space or a tab.
    NotBlank,
    /// Anything but a space.
    NotSp,
}

pub open spec fn is_ws(b: u8) -> bool {
    b == SP || b == CR || b == LF
}

pub open spec fn is_blank(b: u8) -> bool {
    b == SP || b == HT
}

pub open spec fn stop_fn(k: Stop) -> spec_fn(u8) -> bool {
    match k {
        Stop::TokenDelim => |b: u8| b == SP || b == CR,
        Stop::NameEnd => |b: u8| b == COLON || b == CR,
        Stop::Cr => |b: u8| b == CR,
        Stop::NotWs => |b: u8| !is_ws(b),
        Stop::NotBlank => |b: u8| !is_blank(b),
        Stop::NotSp => |b: u8| b != SP,
    }
}

/// An integer result as a machine-size one.
pub open spec fn as_usize(r: Result<int, ParseError>) -> Result<usize, ParseError> {
    match r {
        Ok(j) => Ok(j as usize),
        Err(e) => Err(e),
    }
}

pub open spec fn span_of(a: int, b: int) -> Span {
    Span { start: a as usize, end: b as usize }
}

/// Where a scan from the cursor's position for `k` stops.
pub open spec fn scan_spec(m: CursorModel, k: Stop) -> Result<int, ParseError> {
    let j = find_from(m.content, m.pos, stop_fn(k));
    if j < m.content.len() {
        Ok(j)
    } else {
        Err(m.end_error())
    }
}

/// A request-line token: the bytes up to the next space or CR.
pub open spec fn token_spec(m: CursorModel) -> Result<Span, ParseError> {
    match scan_spec(m, Stop::TokenDelim) {
        Ok(j) => Ok(span_of(m.pos, j)),
        Err(e) => Err(e),
    }
}

/// How many whitespace bytes a chomp bounded by `max` consumes.
pub open spec fn chomp_spec(m: CursorModel, max: int) -> Result<int, ParseError> {
    let j = find_from(m.content, m.pos, stop_fn(Stop::NotWs));
    if j - m.pos >= max {
        Ok(max)
    } else if j < m.content.len() {
        Ok(j - m.pos)
    } else {
        Err(m.end_error())
    }
}

/// What a lookahead reports when it needs a byte past the received ones:
/// wait for more if more may come, else no continuation.
pub open spec fn lws_short(m: CursorModel) -> Result<Option<usize>, ParseError> {
    if m.pending() {
        Err(ParseError::NeedMore)
    } else {
        Ok(None)
    }
}

/// Line-continuation lookahead at the cursor's position: `Some(n)` when a CR,
/// an LF and a space or tab start there, `n` counting them and the spaces and
/// tabs that follow.
pub open spec fn lws_spec(m: CursorModel) -> Result<Option<usize>, ParseError> {
    let s = m.content;
    let p = m.pos;
    if p >= s.len() {
        lws_short(m)
    } else if s[p] != CR {
        Ok(None)
    } else if p + 1 >= s.len() {
        lws_short(m)
    } else if s[p + 1] != LF {
        Ok(None)
    } else if p + 2 >= s.len() {
        lws_short(m)
    } else if !is_blank(s[p + 2]) {
        Ok(None)
    } else {
        let r = find_from(s, p + 3, stop_fn(Stop::NotBlank));
        if r >= s.len() && m.pending() {
            Err(ParseError::NeedMore)
        } else {
            Ok(Some((r - p) as usize))
        }
    }
}

/// A header name: the bytes up to the next colon; a CR before any colon
/// means the line has none.
pub open spec fn name_spec(m: CursorModel) -> Result<Span, ParseError> {
    match scan_spec(m, Stop::NameEnd) {
        Ok(j) => if m.content[j] == COLON {
            Ok(span_of(m.pos, j))
        } else {
            Err(ParseError::MissingColon)
        },
        Err(e) => Err(e),
    }
}

/// A header value: the bytes from the cursor's position up to the next CR,
/// where no line continuation may start.
pub open spec fn value_spec(m: CursorModel) -> Result<Span, ParseError> {
    match scan_spec(m, Stop::Cr) {
        Err(e) => Err(e),
        Ok(ve) => match lws_spec(m.at(ve)) {
            Err(e) => Err(e),
            Ok(Some(_)) => Err(ParseError::UnsupportedContinuation),
            Ok(None) => Ok(span_of(m.pos, ve)),
        },
    }
}

/// One header field: a non-empty name, a colon, the spaces after it, a value.
pub open spec fn header_spec(m: CursorModel) -> Result<HeaderField, ParseError> {
    match name_spec(m) {
        Err(e) => Err(e),
        Ok(n) => if n.end == n.start {
            Err(ParseError::EmptyToken)
        } else {
            match scan_spec(m.at(n.end + 1), Stop::NotSp) {
                Err(e) => Err(e),
                Ok(vs) => match value_spec(m.at(vs)) {
                    Err(e) => Err(e),
                    Ok(v) => Ok(HeaderField { name: n, value: v }),
                },
            }
        },
    }
}

/// The request line from the cursor's position: a non-empty method, URI and
/// version, each separated from the previous one by whitespace.
pub open spec fn request_line_spec(m: CursorModel) -> Result<RequestLine, ParseError> {
    match token_spec(m) {
        Err(e) => Err(e),
        Ok(me) => if me.start == me.end {
            Err(ParseError::EmptyToken)
        } else {
            match chomp_spec(m.at(me.end as int), usize::MAX as int) {
                Err(e) => Err(e),
                Ok(c1) => match token_spec(m.at(me.end + c1)) {
                    Err(e) => Err(e),
                    Ok(u) => if u.start == u.end {
                        Err(ParseError::EmptyToken)
                    } else {
                        match chomp_spec(m.at(u.end as int), usize::MAX as int) {
                            Err(e) => Err(e),
                            Ok(c2) => match token_spec(m.at(u.end + c2)) {
                                Err(e) => Err(e),
                                Ok(v) => if v.start == v.end {
                                    Err(ParseError::EmptyToken)
                                } else {
                                    Ok(RequestLine { method: me, uri: u, version: v })
                                },
                            },
                        }
                    },
                },
            }
        },
    }
}

/// The header block from the cursor's position, after the fields in `acc`:
/// a run of at most two whitespace bytes leads to another field, a longer run
/// (the blank line) ends the block. Gives the fields and the offset just past
/// the block.
pub open spec fn headers_spec(m: CursorModel, acc: Seq<HeaderField>) -> Result<
    (Seq<HeaderField>, int),
    ParseError,
>
    decreases m.content.len() - m.pos,
{
    match chomp_spec(m, 4) {
        Err(e) => Err(e),
        Ok(c) => if c > 2 {
            Ok((acc, m.pos + c))
        } else {
            match header_spec(m.at(m.pos + c)) {
                Err(e) => Err(e),
                Ok(h) => if m.pos < h.value.end <= m.content.len() {
                    headers_spec(m.at(h.value.end as int), acc.push(h))
                } else {
                    Err(m.end_error())
                },
            }
        },
    }
}

/// The whole parse of the received input, from its first byte: the request
/// line, the header block after it, and the body after that.
pub open spec fn parse_spec(m: CursorModel) -> Result<RequestModel, ParseError> {
    let m0 = m.at(0);
    match request_line_spec(m0) {
        Err(e) => Err(e),
        Ok(line) => match headers_spec(m0.at(line.version.end as int), Seq::empty()) {
            Err(e) => Err(e),
            Ok(block) => match body_spec(m0, block.0, block.1) {
                Err(e) => Err(e),
                Ok(body) => Ok(RequestModel { line, headers: block.0, body }),
            },
        },
    }
}

/// Reports whether `b` belongs to the class that stops a scan for `k`.
pub fn stops(k: Stop, b: u8) -> (r: bool)
    ensures
        r == stop_fn(k)(b),
{
    match k {
        Stop::TokenDelim => b == SP || b == CR,
        Stop::NameEnd => b == COLON || b == CR,
        Stop::Cr => b == CR,
        Stop::NotWs => !(b == SP || b == CR || b == LF),
        Stop::NotBlank => !(b == SP || b == HT),
        Stop::NotSp => b != SP,
    }
}

/// Advances to the first byte of class `k` without consuming it, and returns
/// its index.
pub fn scan_to(cur: &mut MyReader, k: Stop) -> (r: Result<usize, ParseError>)
    requires
        old(cur).wf(),
    ensures
        final(cur).wf(),
        final(cur)@.same_input(old(cur)@),
        r == as_usize(scan_spec(old(cur)@, k)),
        r is Ok ==> final(cur)@.pos == r->Ok_0,
        r is Ok ==> old(cur)@.pos <= r->Ok_0 < old(cur)@.content.len(),
        scan_spec(old(cur)@, k) is Ok ==> old(cur)@.pos <= scan_spec(old(cur)@, k)->Ok_0
            < old(cur)@.content.len(),
{
    let ghost m = cur@;
    let ghost stop = stop_fn(k);
    loop
        invariant
            cur.wf(),
            cur@.same_input(m),
            m == old(cur)@,
            stop == stop_fn(k),
            m.wf(),
            m.pos <= cur@.pos,
            find_from(m.content, m.pos, stop) == find_from(m.content, cur@.pos, stop),
        decreases m.content.len() - cur@.pos,
    {
        let ghost p = cur@.pos;
        let b = cur.next();
        match b {
            Next::Byte(b) => {
                assert(b == m.content[p]);
                if stops(k, b) {
                    assert(find_from(m.content, p, stop) == p);
                    proof {
                        lemma_find_from_bounds(m.content, m.pos, stop);
                    }
                    let _ = cur.push_back();
                    return Ok(cur.position());
                }
                assert(find_from(m.content, p, stop) == find_from(m.content, p + 1, stop));
            },
            _ => {
                proof {
                    lemma_find_from_bounds(m.content, cur@.pos, stop);
                }
                return Err(cur.end_error());
            },
        }
    }
}

/// Reads a request-line token from the cursor's position up to, not
/// including, the next space or CR, which stays unconsumed.
pub fn read_token(cur: &mut MyReader) -> (r: Result<Span, ParseError>)
    requires
        old(cur).wf(),
    ensures
        final(cur).wf(),
        final(cur)@.same_input(old(cur)@),
        r == token_spec(old(cur)@),
        r is Ok ==> final(cur)@.pos == r->Ok_0.end,
        r is Ok ==> old(cur)@.pos == r->Ok_0.start <= r->Ok_0.end < old(cur)@.content.len(),
{
    let start = cur.position();
    match scan_to(cur, Stop::TokenDelim) {
        Ok(j) => Ok(Span { start, end: j }),
        Err(e) => Err(e),
    }
}

/// Consumes spaces, CRs and LFs, at most `max` of them, and returns how many.
/// The first other byte stays unconsumed.
pub fn chomp_whitespace_safe(cur: &mut MyReader, max: usize) -> (r: Result<usize, ParseError>)
    requires
        old(cur).wf(),
        max >= 1,
    ensures
        final(cur).wf(),
        final(cur)@.same_input(old(cur)@),
        r == as_usize(chomp_spec(old(cur)@, max as int)),
        r is Ok ==> final(cur)@.pos == old(cur)@.pos + r->Ok_0,
        chomp_spec(old(cur)@, max as int) is Ok ==> 0 <= chomp_spec(old(cur)@, max as int)->Ok_0
            <= old(cur)@.content.len() - old(cur)@.pos,
{
    let ghost m = cur@;
    let ghost stop = stop_fn(Stop::NotWs);
    let mut i: usize = 0;
    loop
        invariant
            cur.wf(),
            cur@.same_input(m),
            m == old(cur)@,
            stop == stop_fn(Stop::NotWs),
            m.wf(),
            cur@.pos == m.pos + i,
            i < max,
            find_from(m.content, m.pos, stop) == find_from(m.content, cur@.pos, stop),
        decreases m.content.len() - cur@.pos,
    {
        proof {
            lemma_find_from_bounds(m.content, cur@.pos, stop);
        }
        let ghost p = cur@.pos;
        let b = cur.next();
        match b {
            Next::Byte(b) => {
                assert(b == m.content[p]);
                if stops(Stop::NotWs, b) {
                    assert(find_from(m.content, p, stop) == p);
                    proof {
                        lemma_find_from_bounds(m.content, m.pos, stop);
                    }
                    let _ = cur.push_back();
                    return Ok(i);
                }
                assert(find_from(m.content, p, stop) == find_from(m.content, p + 1, stop));
                i = i + 1;
                if i == max {
                    proof {
                        lemma_find_from_bounds(m.content, cur@.pos, stop);
                    }
                    return Ok(i);
                }
            },
            _ => {
                assert(find_from(m.content, p, stop) == m.content.len());
                proof {
                    lemma_find_from_bounds(m.content, m.pos, stop);
                }
                return Err(cur.end_error());
            },
        }
    }
}

/// Consumes the whitespace run before the next token, however long.
pub fn chomp_whitespace(cur: &mut MyReader) -> (r: Result<usize, ParseError>)
    requires
        old(cur).wf(),
    ensures
        final(cur).wf(),
        final(cur)@.same_input(old(cur)@),
        r == as_usize(chomp_spec(old(cur)@, usize::MAX as int)),
        r is Ok ==> final(cur)@.pos == old(cur)@.pos + r->Ok_0,
        chomp_spec(old(cur)@, usize::MAX as int) is Ok ==> 0 <= chomp_spec(
            old(cur)@,
            usize::MAX as int,
        )->Ok_0 <= old(cur)@.content.len() - old(cur)@.pos,
{
    chomp_whitespace_safe(cur, usize::MAX)
}

/// Looks ahead from a CR for a line continuation (CR, LF, then a space or a
/// tab). Without one, every byte looked at is pushed back.
pub fn try_chomp_lws(cur: &mut MyReader) -> (r: Result<Option<usize>, ParseError>)
    requires
        old(cur).wf(),
    ensures
        final(cur).wf(),
        final(cur)@.same_input(old(cur)@),
        r == lws_spec(old(cur)@),
        r == Ok::<Option<usize>, ParseError>(None) ==> final(cur)@.pos == old(cur)@.pos,
        r matches Ok(Some(n)) ==> final(cur)@.pos == old(cur)@.pos + n,
{
    let ghost m = cur@;
    match cur.next() {
        Next::Byte(b) => {
            if b != CR {
                let _ = cur.push_back();
                return Ok(None);
            }
        },
        Next::Pending => {
            return Err(ParseError::NeedMore);
        },
        Next::End => {
            return Ok(None);
        },
    }
    match cur.next() {
        Next::Byte(b) => {
            if b != LF {
                let _ = cur.push_back_by(2);
                return Ok(None);
            }
        },
        Next::Pending => {
            return Err(ParseError::NeedMore);
        },
        Next::End => {
            let _ = cur.push_back();
            return Ok(None);
        },
    }
    match cur.next() {
        Next::Byte(b) => {
            if !(b == SP || b == HT) {
                let _ = cur.push_back_by(3);
                return Ok(None);
            }
        },
        Next::Pending => {
            return Err(ParseError::NeedMore);
        },
        Next::End => {
            let _ = cur.push_back_by(2);
            return Ok(None);
        },
    }
    let ghost stop = stop_fn(Stop::NotBlank);
    let mut n: usize = 3;
    loop
        invariant
            cur.wf(),
            m == old(cur)@,
            m.wf(),
            stop == stop_fn(Stop::NotBlank),
            3 <= n,
            m.pos + 3 <= m.content.len(),
            m.content[m.pos] == CR,
            m.content[m.pos + 1] == LF,
            is_blank(m.content[m.pos + 2]),
            cur@ == m.at(m.pos + n),
            find_from(m.content, m.pos + 3, stop) == find_from(m.content, m.pos + n, stop),
        decreases m.content.len() - cur@.pos,
    {
        let ghost p = cur@.pos;
        match cur.next() {
            Next::Byte(b) => {
                assert(b == m.content[p]);
                if !(b == SP || b == HT) {
                    assert(find_from(m.content, p, stop) == p);
                    let _ = cur.push_back();
                    return Ok(Some(n));
                }
                assert(find_from(m.content, p, stop) == find_from(m.content, p + 1, stop));
                n = n + 1;
            },
            Next::Pending => {
                assert(find_from(m.content, p, stop) == m.content.len());
                return Err(ParseError::NeedMore);
            },
            Next::End => {
                assert(find_from(m.content, p, stop) == m.content.len());
                return Ok(Some(n));
            },
        }
    }
}

/// Reads a header name from the cursor's position up to, not including, the
/// next colon, which stays unconsumed. Reaching the line's CR first fails with
/// `MissingColon`.
pub fn read_header_name(cur: &mut MyReader) -> (r: Result<Span, ParseError>)
    requires
        old(cur).wf(),
    ensures
        final(cur).wf(),
        final(cur)@.same_input(old(cur)@),
        r == name_spec(old(cur)@),
        r is Ok ==> final(cur)@.pos == r->Ok_0.end,
        r is Ok ==> old(cur)@.pos <= r->Ok_0.end < old(cur)@.content.len(),
{
    let start = cur.position();
    match scan_to(cur, Stop::NameEnd) {
        Ok(j) => {
            if cur.borrow_content()[j] == COLON {
                Ok(Span { start, end: j })
            } else {
                Err(ParseError::MissingColon)
            }
        },
        Err(e) => Err(e),
    }
}

/// Reads a header value: the bytes from the cursor's position up to, not
/// including, the next CR, which stays unconsumed. A continuation on the next
/// line is refused.
pub fn read_header_value(cur: &mut MyReader) -> (r: Result<Span, ParseError>)
    requires
        old(cur).wf(),
    ensures
        final(cur).wf(),
        final(cur)@.same_input(old(cur)@),
        r == value_spec(old(cur)@),
        r is Ok ==> final(cur)@.pos == r->Ok_0.end,
        r is Ok ==> old(cur)@.pos == r->Ok_0.start <= r->Ok_0.end < old(cur)@.content.len(),
{
    let ghost m = cur@;
    let start = cur.position();
    let end = match scan_to(cur, Stop::Cr) {
        Ok(j) => j,
        Err(e) => {
            return Err(e);
        },
    };
    assert(cur@ == m.at(end as int));
    match try_chomp_lws(cur) {
        Ok(Some(_)) => Err(ParseError::UnsupportedContinuation),
        Ok(None) => Ok(Span { start, end }),
        Err(e) => Err(e),
    }
}

/// Reads one `name: value` header field from the cursor's position.
pub fn parse_header(cur: &mut MyReader) -> (r: Result<HeaderField, ParseError>)
    requires
        old(cur).wf(),
    ensures
        final(cur).wf(),
        final(cur)@.same_input(old(cur)@),
        r == header_spec(old(cur)@),
        r is Ok ==> final(cur)@.pos == r->Ok_0.value.end,
        r is Ok ==> old(cur)@.pos < r->Ok_0.value.end < old(cur)@.content.len(),
        r is Ok ==> r->Ok_0.name.within(old(cur)@.content.len() as int) && r->Ok_0.value.within(
            old(cur)@.content.len() as int,
        ),
{
    let name = match read_header_name(cur) {
        Ok(n) => n,
        Err(e) => {
            return Err(e);
        },
    };
    if name.end == name.start {
        return Err(ParseError::EmptyToken);
    }
    let ghost m = cur@;
    let _ = cur.next();
    assert(cur@ == m.at(name.end + 1));
    let value_start = match scan_to(cur, Stop::NotSp) {
        Ok(j) => j,
        Err(e) => {
            return Err(e);
        },
    };
    assert(cur@ == m.at(value_start as int));
    match read_header_value(cur) {
        Ok(value) => Ok(HeaderField { name, value }),
        Err(e) => Err(e),
    }
}

/// Reads the request line from the first byte of the buffer.
pub fn parse_request_line(cur: &mut MyReader) -> (r: Result<RequestLine, ParseError>)
    requires
        old(cur).wf(),
    ensures
        final(cur).wf(),
        final(cur)@.same_input(old(cur)@),
        r == request_line_spec(old(cur)@),
        r is Ok ==> final(cur)@.pos == r->Ok_0.version.end,
        r is Ok ==> {
            let len = old(cur)@.content.len() as int;
            r->Ok_0.method.within(len) && r->Ok_0.uri.within(len) && r->Ok_0.version.within(len)
        },
{
    let ghost m = cur@;
    let method = match read_token(cur) {
        Ok(t) => t,
        Err(e) => {
            return Err(e);
        },
    };
    if method.start == method.end {
        return Err(ParseError::EmptyToken);
    }
    assert(cur@ == m.at(method.end as int));
    let c1 = match chomp_whitespace(cur) {
        Ok(c) => c,
        Err(e) => {
            return Err(e);
        },
    };
    assert(cur@ == m.at(method.end + c1));
    let uri = match read_token(cur) {
        Ok(t) => t,
        Err(e) => {
            return Err(e);
        },
    };
    if uri.start == uri.end {
        return Err(ParseError::EmptyToken);
    }
    assert(cur@ == m.at(uri.end as int));
    let c2 = match chomp_whitespace(cur) {
        Ok(c) => c,
        Err(e) => {
            return Err(e);
        },
    };
    assert(cur@ == m.at(uri.end + c2));
    let version = match read_token(cur) {
        Ok(t) => t,
        Err(e) => {
            return Err(e);
        },
    };
    if version.start == version.end {
        return Err(ParseError::EmptyToken);
    }
    Ok(RequestLine { method, uri, version })
}

/// Reads header fields until the blank line, and leaves the cursor just past it.
pub fn parse_headers(cur: &mut MyReader) -> (r: Result<Vec<HeaderField>, ParseError>)
    requires
        old(cur).wf(),
    ensures
        final(cur).wf(),
        final(cur)@.same_input(old(cur)@),
        match r {
            Ok(v) => headers_spec(old(cur)@, Seq::empty()) == Ok::<(Seq<HeaderField>, int), ParseError>((v@, final(cur)@.pos)),
            Err(e) => headers_spec(old(cur)@, Seq::empty()) == Err::<(Seq<HeaderField>, int), ParseError>(e),
        },
        r is Ok ==> forall|i: int|
            0 <= i < r->Ok_0@.len() ==> (#[trigger] r->Ok_0@[i]).name.within(
                old(cur)@.content.len() as int,
            ) && r->Ok_0@[i].value.within(old(cur)@.content.len() as int),
{
    let ghost m = cur@;
    let mut headers: Vec<HeaderField> = Vec::new();
    loop
        invariant
            cur.wf(),
            cur@.same_input(m),
            m == old(cur)@,
            m.wf(),
            headers_spec(m, Seq::empty()) == headers_spec(cur@, headers@),
            forall|i: int|
                0 <= i < headers@.len() ==> (#[trigger] headers@[i]).name.within(
                    m.content.len() as int,
                ) && headers@[i].value.within(m.content.len() as int),
        decreases m.content.len() - cur@.pos,
    {
        let ghost before = cur@;
        let chomped = match chomp_whitespace_safe(cur, 4) {
            Ok(c) => c,
            Err(e) => {
                return Err(e);
            },
        };
        if chomped > 2 {
            return Ok(headers);
        }
        let header = match parse_header(cur) {
            Ok(h) => h,
            Err(e) => {
                return Err(e);
            },
        };
        assert(cur@ == before.at(header.value.end as int));
        headers.push(header);
    }
}

/// Scans the bytes received so far, from the first one, into a request.
/// `NeedMore` asks for another read before scanning again.
pub fn parse(cur: &mut MyReader) -> (r: Result<Request, ParseError>)
    requires
        old(cur).wf(),
    ensures
        final(cur).wf(),
        final(cur)@.same_input(old(cur)@),
        match r {
            Ok(req) => parse_spec(old(cur)@) == Ok::<RequestModel, ParseError>(req@),
            Err(e) => parse_spec(old(cur)@) == Err::<RequestModel, ParseError>(e),
        },
        r is Ok ==> r->Ok_0.fits(old(cur)@.content.len() as int),
{
    cur.rewind();
    let line = match parse_request_line(cur) {
        Ok(l) => l,
        Err(e) => {
            return Err(e);
        },
    };
    let headers = match parse_headers(cur) {
        Ok(h) => h,
        Err(e) => {
            return Err(e);
        },
    };
    let header_end = cur.position();
    match read_body(cur, &headers, header_end) {
        Ok(body) => Ok(Request { line, headers, body }),
        Err(e) => Err(e),
    }
}

} // verus!
