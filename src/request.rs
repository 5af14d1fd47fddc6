//! The parse result: spans into the buffer a request was scanned from.
use vstd::prelude::*;

verus! {

/// A half-open byte range `[start, end)` of a buffer. It owns no bytes.
#[derive(Clone, Copy, Debug, PartialEq, Eq, Structural)]
pub struct Span {
    pub start: usize,
    pub end: usize,
}

impl Span {
    /// The span lies within a buffer of `len` bytes.
    pub open spec fn within(self, len: int) -> bool {
        self.start <= self.end <= len
    }

    pub open spec fn bytes(self, s: Seq<u8>) -> Seq<u8> {
        s.subrange(self.start as int, self.end as int)
    }
}

/// The method, URI and version of a request line.
#[derive(Clone, Copy, Debug, PartialEq, Eq, Structural)]
pub struct RequestLine {
    pub method: Span,
    pub uri: Span,
    pub version: Span,
}

/// One `name: value` header field; the colon belongs to neither span.
#[derive(Clone, Copy, Debug, PartialEq, Eq, Structural)]
pub struct HeaderField {
    pub name: Span,
    pub value: Span,
}

/// A scanned request: its line, its header fields in the order received, and
/// the body's span when a valid `Content-Length` announced one.
///
/// The spans refer to the buffer the request was scanned from and mean nothing
/// without it: keep the two together.
#[derive(Debug)]
pub struct Request {
    pub line: RequestLine,
    pub headers: Vec<HeaderField>,
    pub body: Option<Span>,
}

pub struct RequestModel {
    pub line: RequestLine,
    pub headers: Seq<HeaderField>,
    pub body: Option<Span>,
}

impl View for Request {
    type V = RequestModel;

    open spec fn view(&self) -> RequestModel {
        RequestModel { line: self.line, headers: self.headers@, body: self.body }
    }
}

impl Request {
    /// Every span of the request lies within a buffer of `len` bytes.
    pub open spec fn fits(self, len: int) -> bool {
        self@.fits(len)
    }

    /// A text dump of the request line and the header fields, resolved
    /// against `buf`, the buffer the request was scanned from: one
    /// `Method: `, `URI: ` and `Version: ` line each, then `Headers:`
    /// directly followed by a `name: value` line per field in order, or
    /// `No headers`, and last the letters `TODO`.
    pub fn render(&self, buf: &[u8]) -> (r: Vec<u8>)
        requires
            self.fits(buf@.len() as int),
        ensures
            r@ == render_spec(self@, buf@),
    {
        let mut out: Vec<u8> = Vec::new();
        let label = vec![77u8, 101u8, 116u8, 104u8, 111u8, 100u8, 58u8, 32u8];
        assert(label@ =~= method_label());
        append_bytes(&mut out, label.as_slice(), 0, label.len());
        append_bytes(&mut out, buf, self.line.method.start, self.line.method.end);
        out.push(10u8);
        let label = vec![85u8, 82u8, 73u8, 58u8, 32u8];
        assert(label@ =~= uri_label());
        append_bytes(&mut out, label.as_slice(), 0, label.len());
        append_bytes(&mut out, buf, self.line.uri.start, self.line.uri.end);
        out.push(10u8);
        let label = vec![86u8, 101u8, 114u8, 115u8, 105u8, 111u8, 110u8, 58u8, 32u8];
        assert(label@ =~= version_label());
        append_bytes(&mut out, label.as_slice(), 0, label.len());
        append_bytes(&mut out, buf, self.line.version.start, self.line.version.end);
        out.push(10u8);
        let ghost line_text = out@;
        assert(line_text =~= line_spec(self@.line, buf@));
        if self.headers.len() == 0 {
            let label = vec![78u8, 111u8, 32u8, 104u8, 101u8, 97u8, 100u8, 101u8, 114u8, 115u8];
            assert(label@ =~= no_headers_label());
            append_bytes(&mut out, label.as_slice(), 0, label.len());
        } else {
            self.render_fields(buf, &mut out);
        }
        assert(out@ == line_text + fields_part(self@, buf@));
        let marker = vec![84u8, 79u8, 68u8, 79u8];
        assert(marker@ =~= closing_marker());
        append_bytes(&mut out, marker.as_slice(), 0, marker.len());
        assert(out@ =~= render_spec(self@, buf@));
        out
    }

    /// Appends `Headers:` and one `name: value` line per field.
    fn render_fields(&self, buf: &[u8], out: &mut Vec<u8>)
        requires
            self.fits(buf@.len() as int),
            self.headers@.len() > 0,
        ensures
            final(out)@ == old(out)@ + headers_label() + fields_spec(self.headers@, buf@),
    {
        let ghost line_text = out@;
        let label = vec![72u8, 101u8, 97u8, 100u8, 101u8, 114u8, 115u8, 58u8];
        assert(label@ =~= headers_label());
        append_bytes(out, label.as_slice(), 0, label.len());
        let sep = vec![58u8, 32u8];
        assert(sep@ =~= field_separator());
        let mut i: usize = 0;
        while i < self.headers.len()
            invariant
                self.fits(buf@.len() as int),
                sep@ == field_separator(),
                0 <= i <= self.headers@.len(),
                self.headers@.len() > 0,
                line_text == old(out)@,
                out@ == line_text + headers_label() + fields_spec(
                    self.headers@.subrange(0, i as int),
                    buf@,
                ),
            decreases self.headers@.len() - i,
        {
            let h = self.headers[i];
            assert(self@.headers[i as int] == h);
            append_bytes(out, buf, h.name.start, h.name.end);
            append_bytes(out, sep.as_slice(), 0, sep.len());
            append_bytes(out, buf, h.value.start, h.value.end);
            out.push(10u8);
            assert(self.headers@.subrange(0, i + 1).drop_last() =~= self.headers@.subrange(0, i as int));
            i = i + 1;
            assert(out@ =~= line_text + headers_label() + fields_spec(
                self.headers@.subrange(0, i as int),
                buf@,
            ));
        }
        assert(self.headers@.subrange(0, i as int) =~= self.headers@);
    }
}

impl RequestModel {
    pub open spec fn fits(self, len: int) -> bool {
        &&& self.line.method.within(len)
        &&& self.line.uri.within(len)
        &&& self.line.version.within(len)
        &&& forall|i: int|
            0 <= i < self.headers.len() ==> (#[trigger] self.headers[i]).name.within(len)
                && self.headers[i].value.within(len)
        &&& self.body matches Some(b) ==> b.within(len)
    }
}

/// `Method: `
pub open spec fn method_label() -> Seq<u8> {
    seq![77u8, 101u8, 116u8, 104u8, 111u8, 100u8, 58u8, 32u8]
}

/// `URI: `
pub open spec fn uri_label() -> Seq<u8> {
    seq![85u8, 82u8, 73u8, 58u8, 32u8]
}

/// `Version: `
pub open spec fn version_label() -> Seq<u8> {
    seq![86u8, 101u8, 114u8, 115u8, 105u8, 111u8, 110u8, 58u8, 32u8]
}

/// `Headers:`
pub open spec fn headers_label() -> Seq<u8> {
    seq![72u8, 101u8, 97u8, 100u8, 101u8, 114u8, 115u8, 58u8]
}

/// `No headers`
pub open spec fn no_headers_label() -> Seq<u8> {
    seq![78u8, 111u8, 32u8, 104u8, 101u8, 97u8, 100u8, 101u8, 114u8, 115u8]
}

/// `TODO`, the four letters that close the dump.
pub open spec fn closing_marker() -> Seq<u8> {
    seq![84u8, 79u8, 68u8, 79u8]
}

/// `: `
pub open spec fn field_separator() -> Seq<u8> {
    seq![58u8, 32u8]
}

/// The three request-line lines of the dump.
pub open spec fn line_spec(line: RequestLine, s: Seq<u8>) -> Seq<u8> {
    method_label() + line.method.bytes(s) + seq![10u8] + uri_label() + line.uri.bytes(s) + seq![10u8]
        + version_label() + line.version.bytes(s) + seq![10u8]
}

/// One `name: value` line per field, in order.
pub open spec fn fields_spec(hs: Seq<HeaderField>, s: Seq<u8>) -> Seq<u8>
    decreases hs.len(),
{
    if hs.len() == 0 {
        Seq::empty()
    } else {
        fields_spec(hs.drop_last(), s) + hs.last().name.bytes(s) + field_separator()
            + hs.last().value.bytes(s) + seq![10u8]
    }
}

/// The part of the dump after the request line: `No headers`, or
/// `Headers:` directly followed by the field lines.
pub open spec fn fields_part(req: RequestModel, s: Seq<u8>) -> Seq<u8> {
    if req.headers.len() == 0 {
        no_headers_label()
    } else {
        headers_label() + fields_spec(req.headers, s)
    }
}

/// The dump of a request scanned from `s`.
pub open spec fn render_spec(req: RequestModel, s: Seq<u8>) -> Seq<u8> {
    line_spec(req.line, s) + fields_part(req, s) + closing_marker()
}

/// Appends `src[start..end]` to `out`.
fn append_bytes(out: &mut Vec<u8>, src: &[u8], start: usize, end: usize)
    requires
        start <= end <= src@.len(),
    ensures
        final(out)@ == old(out)@ + src@.subrange(start as int, end as int),
{
    let mut i: usize = start;
    while i < end
        invariant
            start <= i <= end <= src@.len(),
            out@ == old(out)@ + src@.subrange(start as int, i as int),
        decreases end - i,
    {
        out.push(src[i]);
        i = i + 1;
        assert(out@ =~= old(out)@ + src@.subrange(start as int, i as int));
    }
}

/// A copy of the bytes of `span` in `buf`.
pub fn buf_str(buf: &[u8], span: Span) -> (r: Vec<u8>)
    requires
        span.within(buf@.len() as int),
    ensures
        r@ == span.bytes(buf@),
{
    let mut out: Vec<u8> = Vec::new();
    append_bytes(&mut out, buf, span.start, span.end);
    assert(out@ =~= span.bytes(buf@));
    out
}

} // verus!
