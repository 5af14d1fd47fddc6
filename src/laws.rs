//! Properties of the parse as a whole.
use vstd::prelude::*;
use crate::cursor::{find_from, lemma_find_from_bounds, lemma_find_from_skips, CursorModel, ParseError, CR, LF, SP, HT, COLON};
use crate::scan::{
    chomp_spec, header_spec, headers_spec, is_blank, is_ws, lws_spec, name_spec, parse_spec,
    request_line_spec, span_of, stop_fn, token_spec, value_spec, Stop,
};
use crate::request::{HeaderField, RequestLine, RequestModel, Span};
use crate::body::{ascii_lower, content_length_name, first_content_length, is_content_length};

verus! {

/// An error that means "the input ran out".
pub open spec fn is_truncation(e: ParseError) -> bool {
    e == ParseError::NeedMore || e == ParseError::UnexpectedEnd || e == ParseError::TooLarge
}

proof fn lemma_headers_end_errors_agree(m: CursorModel, acc: Seq<HeaderField>)
    ensures
        headers_spec(m, acc) is Err && is_truncation(headers_spec(m, acc)->Err_0)
            ==> headers_spec(m, acc)->Err_0 == m.end_error(),
    decreases m.content.len() - m.pos,
{
    if let Ok(c) = chomp_spec(m, 4) {
        if c <= 2 {
            if let Ok(h) = header_spec(m.at(m.pos + c)) {
                if m.pos < h.value.end <= m.content.len() {
                    lemma_headers_end_errors_agree(m.at(h.value.end as int), acc.push(h));
                }
            }
        }
    }
}

/// When the input runs out, the parse reports why in terms of the input alone:
/// a full buffer, an ended source, or (only while more may come) a wait for
/// more bytes.
pub proof fn lemma_end_errors_agree(m: CursorModel)
    requires
        m.wf(),
    ensures
        parse_spec(m) is Err && is_truncation(parse_spec(m)->Err_0) ==> parse_spec(m)->Err_0
            == m.end_error(),
        parse_spec(m) == Err::<RequestModel, ParseError>(ParseError::NeedMore)
            ==> m.pending() && m.content.len() < m.cap,
{
    let m0 = m.at(0);
    if let Ok(line) = request_line_spec(m0) {
        lemma_headers_end_errors_agree(m0.at(line.version.end as int), Seq::empty());
    }
}

/// A buffer filled to its capacity never waits for more input and never
/// reports an ended source: when the message is not complete in it, the
/// parse fails with `TooLarge`.
pub proof fn lemma_full_buffer_is_too_large(m: CursorModel)
    requires
        m.wf(),
        m.content.len() == m.cap,
    ensures
        parse_spec(m) is Err && is_truncation(parse_spec(m)->Err_0) ==> parse_spec(m)->Err_0
            == ParseError::TooLarge,
{
    lemma_end_errors_agree(m);
}

/// A blank line (CR LF CR LF) where the next header field would start ends
/// the header block, with the fields read so far, just past the blank line.
pub proof fn lemma_blank_line_ends_headers(m: CursorModel, acc: Seq<HeaderField>)
    requires
        m.wf(),
        m.pos + 4 <= m.content.len(),
        m.content.subrange(m.pos, m.pos + 4) == seq![CR, LF, CR, LF],
    ensures
        headers_spec(m, acc) == Ok::<(Seq<HeaderField>, int), ParseError>((acc, m.pos + 4)),
{
    let s = m.content;
    let p = m.pos;
    assert(s[p] == s.subrange(p, p + 4)[0]);
    assert(s[p + 1] == s.subrange(p, p + 4)[1]);
    assert(s[p + 2] == s.subrange(p, p + 4)[2]);
    assert(s[p + 3] == s.subrange(p, p + 4)[3]);
    lemma_find_from_skips(s, p, p + 4, stop_fn(Stop::NotWs));
    lemma_find_from_bounds(s, p + 4, stop_fn(Stop::NotWs));
}

/// A header field as text: a non-empty name without colons or CRs that does
/// not start with whitespace or a tab (which would continue the previous
/// line), and a value without CRs that does not start with a space (spaces
/// after the colon are not part of the value).
pub open spec fn field_ok(h: (Seq<u8>, Seq<u8>)) -> bool {
    &&& h.0.len() > 0
    &&& !is_ws(h.0[0]) && !is_blank(h.0[0])
    &&& forall|k: int| 0 <= k < h.0.len() ==> #[trigger] h.0[k] != COLON && h.0[k] != CR
    &&& forall|k: int| 0 <= k < h.1.len() ==> #[trigger] h.1[k] != CR
    &&& h.1.len() > 0 ==> h.1[0] != SP
}

/// Each field as `CR LF name ": " value`, in order: the line break before a
/// field belongs to it.
pub open spec fn field_lines(hs: Seq<(Seq<u8>, Seq<u8>)>) -> Seq<u8>
    decreases hs.len(),
{
    if hs.len() == 0 {
        Seq::empty()
    } else {
        seq![CR, LF] + hs[0].0 + seq![COLON, SP] + hs[0].1 + field_lines(hs.drop_first())
    }
}

proof fn lemma_field_step(m: CursorModel, q: int, hs: Seq<(Seq<u8>, Seq<u8>)>, acc: Seq<HeaderField>)
    requires
        m.wf(),
        hs.len() > 0,
        forall|i: int| 0 <= i < hs.len() ==> field_ok(#[trigger] hs[i]),
        0 <= q,
        q + field_lines(hs).len() + 4 <= m.content.len(),
        m.content.subrange(q, q + field_lines(hs).len() + 4) == field_lines(hs) + seq![CR, LF, CR, LF],
    ensures
        ({
            let n = hs[0].0.len() as int;
            let q1 = q + 4 + n + hs[0].1.len();
            let h = HeaderField { name: span_of(q + 2, q + 2 + n), value: span_of(q + 4 + n, q1) };
            &&& headers_spec(m.at(q), acc) == headers_spec(m.at(q1), acc.push(h))
            &&& m.content.subrange(q1, q1 + field_lines(hs.drop_first()).len() + 4) == field_lines(hs.drop_first()) + seq![CR, LF, CR, LF]
            &&& h.name.bytes(m.content) == hs[0].0
            &&& h.value.bytes(m.content) == hs[0].1
            &&& h.name.within(m.content.len() as int)
        }),
{
    let s = m.content;
    let h0 = hs[0];
    let rest = hs.drop_first();
    let n = h0.0.len() as int;
    let v = h0.1.len() as int;
    let q1 = q + 4 + n + v;
    let tail = field_lines(rest) + seq![CR, LF, CR, LF];
    let t = s.subrange(q, q + field_lines(hs).len() + 4);
    assert(field_lines(hs) == seq![CR, LF] + h0.0 + seq![COLON, SP] + h0.1 + field_lines(rest));
    assert(t =~= seq![CR, LF] + h0.0 + seq![COLON, SP] + h0.1 + tail);
    assert(s[q] == t[0]);
    assert(s[q + 1] == t[1]);
    assert forall|k: int| 0 <= k < n implies s[q + 2 + k] == h0.0[k] by {
        assert(s[q + 2 + k] == t[2 + k]);
    }
    assert(s[q + 2 + n] == t[2 + n]);
    assert(s[q + 3 + n] == t[3 + n]);
    assert forall|k: int| 0 <= k < v implies s[q + 4 + n + k] == h0.1[k] by {
        assert(s[q + 4 + n + k] == t[4 + n + k]);
    }
    assert(s.subrange(q1, q1 + tail.len()) =~= tail) by {
        assert forall|k: int| 0 <= k < tail.len() implies s.subrange(q1, q1 + tail.len())[k] == tail[k] by {
            assert(s[q1 + k] == t[4 + n + v + k]);
        }
    }
    assert(s[q1] == tail[0]);
    assert(s[q1 + 1] == tail[1]);
    assert(field_ok(hs[0]));
    assert(s[q + 2] == h0.0[0]);
    assert(!is_ws(s[q + 2]));
    assert(!is_blank(s[q1 + 2])) by {
        assert(s[q1 + 2] == tail[2]);
        if rest.len() > 0 {
            assert(field_lines(rest) == seq![CR, LF] + rest[0].0 + seq![COLON, SP] + rest[0].1
                + field_lines(rest.drop_first()));
            assert(field_ok(rest[0]));
            assert(field_lines(rest)[2] == rest[0].0[0]);
            assert(tail[2] == field_lines(rest)[2]);
        } else {
            assert(field_lines(rest) =~= Seq::<u8>::empty());
            assert(tail =~= seq![CR, LF, CR, LF]);
        }
    }
    assert(field_ok(hs[0]));
    assert(s[q] == CR && s[q + 1] == LF);
    assert(s[q + 2 + n] == COLON && s[q + 3 + n] == SP);
    assert(s[q1] == CR && s[q1 + 1] == LF);
    // the line break before the field
    let sw = stop_fn(Stop::NotWs);
    lemma_find_from_skips(s, q, q + 2, sw);
    assert(find_from(s, q, sw) == q + 2);
    assert(chomp_spec(m.at(q), 4) == Ok::<int, ParseError>(2));
    // the name
    let sc = stop_fn(Stop::NameEnd);
    assert forall|k: int| q + 2 <= k < q + 2 + n implies !sc(#[trigger] s[k]) by {
        assert(s[q + 2 + (k - q - 2)] == h0.0[k - q - 2]);
    }
    lemma_find_from_skips(s, q + 2, q + 2 + n, sc);
    assert(find_from(s, q + 2, sc) == q + 2 + n);
    let name = span_of(q + 2, q + 2 + n);
    assert(name_spec(m.at(q + 2)) == Ok::<Span, ParseError>(name));
    // the value
    let sb = stop_fn(Stop::NotSp);
    lemma_find_from_skips(s, q + 3 + n, q + 4 + n, sb);
    if v > 0 {
        assert(s[q + 4 + n] == h0.1[0]);
    }
    assert(find_from(s, q + 3 + n, sb) == q + 4 + n);
    let sr = stop_fn(Stop::Cr);
    assert forall|k: int| q + 4 + n <= k < q1 implies !sr(#[trigger] s[k]) by {
        assert(s[q + 4 + n + (k - q - 4 - n)] == h0.1[k - q - 4 - n]);
    }
    lemma_find_from_skips(s, q + 4 + n, q1, sr);
    assert(find_from(s, q + 4 + n, sr) == q1);
    assert(lws_spec(m.at(q1)) == Ok::<Option<usize>, ParseError>(None));
    let value = span_of(q + 4 + n, q1);
    assert(value_spec(m.at(q + 4 + n)) == Ok::<Span, ParseError>(value));
    let h = HeaderField { name, value };
    assert(header_spec(m.at(q + 2)) == Ok::<HeaderField, ParseError>(h));
    assert(m.at(q).at(q + 2) == m.at(q + 2));
    assert(headers_spec(m.at(q), acc) == headers_spec(m.at(q1), acc.push(h)));
    assert(name.bytes(s) =~= h0.0);
    assert(value.bytes(s) =~= h0.1);
}

/// The header fields of a well-formed header block, followed by a blank line,
/// come back in order with exactly their names and values, and the block ends
/// just past the blank line.
pub proof fn lemma_field_lines_parse(m: CursorModel, q: int, hs: Seq<(Seq<u8>, Seq<u8>)>, acc: Seq<HeaderField>)
    requires
        m.wf(),
        forall|i: int| 0 <= i < hs.len() ==> field_ok(#[trigger] hs[i]),
        0 <= q,
        q + field_lines(hs).len() + 4 <= m.content.len(),
        m.content.subrange(q, q + field_lines(hs).len() + 4) == field_lines(hs) + seq![CR, LF, CR, LF],
    ensures
        headers_spec(m.at(q), acc) is Ok,
        ({
            let r = headers_spec(m.at(q), acc)->Ok_0;
            &&& r.1 == q + field_lines(hs).len() + 4
            &&& r.0.len() == acc.len() + hs.len()
            &&& r.0.subrange(0, acc.len() as int) == acc
            &&& forall|i: int|
                0 <= i < hs.len() ==> (#[trigger] r.0[acc.len() + i]).name.bytes(m.content) == hs[i].0
                    && r.0[acc.len() + i].value.bytes(m.content) == hs[i].1
                    && r.0[acc.len() + i].name.within(m.content.len() as int)
        }),
    decreases hs.len(),
{
    if hs.len() == 0 {
        assert(field_lines(hs) =~= Seq::<u8>::empty());
        assert(field_lines(hs) + seq![CR, LF, CR, LF] =~= seq![CR, LF, CR, LF]);
        lemma_blank_line_ends_headers(m.at(q), acc);
        assert(acc.subrange(0, acc.len() as int) =~= acc);
    } else {
        let n = hs[0].0.len() as int;
        let q1 = q + 4 + n + hs[0].1.len();
        let h = HeaderField { name: span_of(q + 2, q + 2 + n), value: span_of(q + 4 + n, q1) };
        lemma_field_step(m, q, hs, acc);
        let rest = hs.drop_first();
        assert forall|i: int| 0 <= i < rest.len() implies field_ok(#[trigger] rest[i]) by {
            assert(rest[i] == hs[i + 1]);
        }
        lemma_field_lines_parse(m, q1, rest, acc.push(h));
        let r = headers_spec(m.at(q), acc)->Ok_0;
        assert(field_lines(hs).len() == 4 + n + hs[0].1.len() + field_lines(rest).len());
        assert(r.0.subrange(0, acc.len() + 1int) == acc.push(h));
        assert(r.0.subrange(0, acc.len() as int) =~= acc) by {
            assert forall|k: int| 0 <= k < acc.len() implies r.0[k] == acc[k] by {
                assert(r.0[k] == r.0.subrange(0, acc.len() + 1int)[k]);
            }
        }
        assert forall|i: int|
            0 <= i < hs.len() implies (#[trigger] r.0[acc.len() + i]).name.bytes(m.content) == hs[i].0
                && r.0[acc.len() + i].value.bytes(m.content) == hs[i].1
                && r.0[acc.len() + i].name.within(m.content.len() as int) by {
            if i == 0 {
                assert(r.0[acc.len() as int] == r.0.subrange(0, acc.len() + 1int)[acc.len() as int]);
            } else {
                assert(rest[i - 1] == hs[i]);
                assert(r.0[acc.len() + i] == r.0[acc.push(h).len() + (i - 1)]);
            }
        }
    }
}

/// A request-line token as text: non-empty, without spaces, CRs or LFs.
pub open spec fn token_ok(t: Seq<u8>) -> bool {
    &&& t.len() > 0
    &&& forall|k: int| 0 <= k < t.len() ==> !is_ws(#[trigger] t[k])
}

/// `METHOD SP URI SP VERSION`, the header fields (each after a line break),
/// and the blank line.
pub open spec fn message(
    method: Seq<u8>,
    uri: Seq<u8>,
    version: Seq<u8>,
    hs: Seq<(Seq<u8>, Seq<u8>)>,
) -> Seq<u8> {
    method + seq![SP] + uri + seq![SP] + version + field_lines(hs) + seq![CR, LF, CR, LF]
}

/// The text `n` is `Content-Length` in some mix of letter cases.
pub open spec fn text_names_content_length(n: Seq<u8>) -> bool {
    &&& n.len() == content_length_name().len()
    &&& forall|k: int| 0 <= k < n.len() ==> ascii_lower(#[trigger] n[k]) == content_length_name()[k]
}

proof fn lemma_no_content_length(s: Seq<u8>, fields: Seq<HeaderField>, i: int)
    requires
        0 <= i <= fields.len(),
        forall|k: int| i <= k < fields.len() ==> !is_content_length(s, #[trigger] fields[k].name),
    ensures
        first_content_length(s, fields, i) == fields.len(),
    decreases fields.len() - i,
{
    if i < fields.len() {
        lemma_no_content_length(s, fields, i + 1);
    }
}

/// A token followed by `delim` at position `a + t.len()` is read back exactly.
proof fn lemma_token_at(m: CursorModel, a: int, t: Seq<u8>)
    requires
        m.wf(),
        token_ok(t),
        0 <= a,
        a + t.len() < m.content.len(),
        m.content.subrange(a, a + t.len()) == t,
        m.content[a + t.len()] == SP || m.content[a + t.len()] == CR,
    ensures
        token_spec(m.at(a)) == Ok::<Span, ParseError>(span_of(a, a + t.len())),
        span_of(a, a + t.len()).bytes(m.content) == t,
{
    let s = m.content;
    let st = stop_fn(Stop::TokenDelim);
    assert forall|k: int| a <= k < a + t.len() implies !st(#[trigger] s[k]) by {
        assert(s[k] == m.content.subrange(a, a + t.len())[k - a]);
    }
    lemma_find_from_skips(s, a, a + t.len(), st);
}

/// The whole of a well-formed request comes back exactly: the method, URI and
/// version, and the header fields in order with their names and values; the
/// header block ends just past the blank line. Without a `Content-Length`
/// field the parse succeeds with no body; with one, whatever the parse gives
/// has that same line and those same fields.
pub proof fn lemma_well_formed_request(
    m: CursorModel,
    method: Seq<u8>,
    uri: Seq<u8>,
    version: Seq<u8>,
    hs: Seq<(Seq<u8>, Seq<u8>)>,
)
    requires
        m.wf(),
        token_ok(method),
        token_ok(uri),
        token_ok(version),
        forall|i: int| 0 <= i < hs.len() ==> field_ok(#[trigger] hs[i]),
        message(method, uri, version, hs).len() <= m.content.len(),
        m.content.subrange(0, message(method, uri, version, hs).len() as int) == message(
            method,
            uri,
            version,
            hs,
        ),
    ensures
        request_line_spec(m.at(0)) is Ok,
        ({
            let s = m.content;
            let line = request_line_spec(m.at(0))->Ok_0;
            let block = headers_spec(m.at(line.version.end as int), Seq::empty());
            &&& line.method.bytes(s) == method
            &&& line.uri.bytes(s) == uri
            &&& line.version.bytes(s) == version
            &&& block is Ok
            &&& block->Ok_0.1 == message(method, uri, version, hs).len()
            &&& block->Ok_0.0.len() == hs.len()
            &&& forall|i: int|
                0 <= i < hs.len() ==> (#[trigger] block->Ok_0.0[i]).name.bytes(s) == hs[i].0
                    && block->Ok_0.0[i].value.bytes(s) == hs[i].1
            &&& parse_spec(m) is Ok ==> parse_spec(m)->Ok_0.line == line && parse_spec(m)->Ok_0.headers
                == block->Ok_0.0
            &&& (forall|i: int| 0 <= i < hs.len() ==> !text_names_content_length(#[trigger] hs[i].0))
                ==> parse_spec(m) == Ok::<RequestModel, ParseError>(
                RequestModel { line, headers: block->Ok_0.0, body: None },
            )
        }),
{
    let s = m.content;
    let msg = message(method, uri, version, hs);
    let a = method.len() as int;
    let u = uri.len() as int;
    let b = a + 2 + u;
    let v = version.len() as int;
    let q = b + v;
    let rest = field_lines(hs) + seq![CR, LF, CR, LF];
    assert(msg =~= method + (seq![SP] + (uri + (seq![SP] + (version + rest)))));
    let t = s.subrange(0, msg.len() as int);
    assert(s.subrange(0, a) =~= method) by {
        assert forall|k: int| 0 <= k < a implies s.subrange(0, a)[k] == method[k] by {
            assert(s[k] == t[k]);
        }
    }
    assert(s[a] == t[a]);
    assert(s.subrange(a + 1, a + 1 + u) =~= uri) by {
        assert forall|k: int| 0 <= k < u implies s.subrange(a + 1, a + 1 + u)[k] == uri[k] by {
            assert(s[a + 1 + k] == t[a + 1 + k]);
        }
    }
    assert(s[a + 1 + u] == t[a + 1 + u]);
    assert(s.subrange(b, b + v) =~= version) by {
        assert forall|k: int| 0 <= k < v implies s.subrange(b, b + v)[k] == version[k] by {
            assert(s[b + k] == t[b + k]);
        }
    }
    assert(s.subrange(q, msg.len() as int) =~= rest) by {
        assert forall|k: int| 0 <= k < rest.len() implies s.subrange(q, msg.len() as int)[k] == rest[k] by {
            assert(s[q + k] == t[q + k]);
        }
    }
    assert(s[q] == rest[0]);
    assert(rest[0] == CR) by {
        if hs.len() > 0 {
            assert(field_lines(hs) == seq![CR, LF] + hs[0].0 + seq![COLON, SP] + hs[0].1
                + field_lines(hs.drop_first()));
            assert(field_lines(hs)[0] == CR);
        } else {
            assert(field_lines(hs) =~= Seq::<u8>::empty());
        }
    }
    assert(s[a + 1] == uri[0]) by {
        assert(s[a + 1] == s.subrange(a + 1, a + 1 + u)[0]);
    }
    assert(s[b] == version[0]) by {
        assert(s[b] == s.subrange(b, b + v)[0]);
    }
    // the request line
    lemma_token_at(m, 0, method);
    lemma_token_at(m, a + 1, uri);
    lemma_token_at(m, b, version);
    let sw = stop_fn(Stop::NotWs);
    lemma_find_from_skips(s, a, a + 1, sw);
    lemma_find_from_skips(s, a + 1 + u, b, sw);
    assert(find_from(s, a, sw) == a + 1);
    assert(find_from(s, a + 1 + u, sw) == b);
    assert(chomp_spec(m.at(a), usize::MAX as int) == Ok::<int, ParseError>(1));
    assert(chomp_spec(m.at(a + 1 + u), usize::MAX as int) == Ok::<int, ParseError>(1));
    assert(m.at(0).at(a) == m.at(a));
    assert(m.at(0).at(a + 1) == m.at(a + 1));
    assert(m.at(0).at(a + 1 + u) == m.at(a + 1 + u));
    assert(m.at(0).at(b) == m.at(b));
    let line = RequestLine {
        method: span_of(0, a),
        uri: span_of(a + 1, a + 1 + u),
        version: span_of(b, q),
    };
    assert(request_line_spec(m.at(0)) == Ok::<RequestLine, ParseError>(line));
    // the header block
    assert(field_lines(hs).len() + 4 == rest.len());
    lemma_field_lines_parse(m, q, hs, Seq::empty());
    let block = headers_spec(m.at(q), Seq::empty());
    assert(m.at(0).at(q) == m.at(q));
    assert(block->Ok_0.0.len() == hs.len());
    assert forall|i: int| 0 <= i < hs.len() implies (#[trigger] block->Ok_0.0[i]).name.bytes(s) == hs[i].0
        && block->Ok_0.0[i].value.bytes(s) == hs[i].1 by {
        assert(block->Ok_0.0[i] == block->Ok_0.0[0 + i]);
    }
    if forall|i: int| 0 <= i < hs.len() ==> !text_names_content_length(#[trigger] hs[i].0) {
        let fields = block->Ok_0.0;
        assert forall|k: int| 0 <= k < fields.len() implies !is_content_length(s, #[trigger] fields[k].name) by {
            let nm = fields[k].name;
            assert(fields[k] == fields[0 + k]);
            assert(nm.bytes(s) == hs[k].0);
            assert(nm.within(s.len() as int));
            if is_content_length(s, nm) {
                assert forall|j: int| 0 <= j < hs[k].0.len() implies ascii_lower(#[trigger] hs[k].0[j])
                    == content_length_name()[j] by {
                    assert(hs[k].0[j] == s[nm.start + j]);
                }
                assert(text_names_content_length(hs[k].0));
            }
        }
        lemma_no_content_length(s, fields, 0);
    }
}

} // verus!
