use std::io::{Error, ErrorKind, Read};

use httpscan::cursor::{MyReader, Next, ParseError};
use httpscan::request::{buf_str, Request, Span};
use httpscan::scan::{
    chomp_whitespace_safe, parse, parse_header, parse_headers, parse_request_line, read_header_value,
    read_token, try_chomp_lws,
};
use httpscan::text::is_valid_utf8;
use httpscan::session::{on_read, step, Action, ReadOutcome};

const CAP: usize = 32768;

struct FailReader {}

impl Read for FailReader {
    fn read(&mut self, _buf: &mut [u8]) -> std::io::Result<usize> {
        Err(Error::new(ErrorKind::InvalidData, "not implemented"))
    }
}

/// Hands out its bytes a few at a time.
struct Trickle {
    data: Vec<u8>,
    at: usize,
    chunk: usize,
}

impl Read for Trickle {
    fn read(&mut self, buf: &mut [u8]) -> std::io::Result<usize> {
        let n = self.chunk.min(buf.len()).min(self.data.len() - self.at);
        buf[..n].copy_from_slice(&self.data[self.at..self.at + n]);
        self.at += n;
        Ok(n)
    }
}

fn drive(reader: &mut dyn Read, cap: usize) -> (MyReader, Result<Request, ParseError>) {
    let mut cur = MyReader::new(cap);
    loop {
        match step(&mut cur) {
            Action::Read(n) => {
                let mut buf = vec![0u8; n];
                let outcome = match reader.read(&mut buf) {
                    Ok(k) => {
                        buf.truncate(k);
                        ReadOutcome::Bytes(buf)
                    }
                    Err(_) => ReadOutcome::Failed,
                };
                if let Err(e) = on_read(&mut cur, outcome) {
                    return (cur, Err(e));
                }
            }
            Action::Done(req) => return (cur, Ok(req)),
            Action::Fail(e) => return (cur, Err(e)),
        }
    }
}

fn parse_bytes(input: &[u8]) -> (MyReader, Result<Request, ParseError>) {
    let mut reader = input;
    drive(&mut reader, CAP)
}

fn text(cur: &MyReader, span: Span) -> String {
    String::from_utf8(buf_str(cur.borrow_content(), span)).unwrap()
}

fn cursor_over(input: &[u8], cap: usize, ended: bool) -> MyReader {
    let mut cur = MyReader::new(cap);
    cur.feed(input);
    if ended {
        cur.finish();
    }
    cur
}

#[test]
fn parse_works() {
    let (_, r) = drive(&mut FailReader {}, CAP);
    assert!(r.is_err());
}

#[test]
fn failing_source_gives_io_error() {
    let (_, r) = drive(&mut FailReader {}, CAP);
    assert_eq!(r.unwrap_err(), ParseError::Io);
}

#[test]
fn get_with_one_header() {
    let (cur, r) = parse_bytes(b"GET /a HTTP/1.1\r\nHost: x\r\n\r\n");
    let req = r.unwrap();
    assert_eq!(text(&cur, req.line.method), "GET");
    assert_eq!(text(&cur, req.line.uri), "/a");
    assert_eq!(text(&cur, req.line.version), "HTTP/1.1");
    assert_eq!(req.headers.len(), 1);
    assert_eq!(text(&cur, req.headers[0].name), "Host");
    assert_eq!(text(&cur, req.headers[0].value), "x");
    assert_eq!(req.body, None);
}

#[test]
fn post_body_resolves() {
    let (cur, r) = parse_bytes(b"POST / HTTP/1.1\r\nContent-Length: 3\r\n\r\nabc");
    let req = r.unwrap();
    assert_eq!(text(&cur, req.body.unwrap()), "abc");
}

#[test]
fn content_length_five() {
    let (cur, r) = parse_bytes(b"POST /u HTTP/1.1\r\nContent-Length: 5\r\n\r\nhello");
    let body = r.unwrap().body.unwrap();
    assert_eq!(body.end - body.start, 5);
    assert_eq!(text(&cur, body), "hello");
}

#[test]
fn content_length_zero_rejected() {
    let (_, r) = parse_bytes(b"POST / HTTP/1.1\r\nContent-Length: 0\r\n\r\n");
    assert_eq!(r.unwrap_err(), ParseError::InvalidContentLength);
}

#[test]
fn content_length_not_a_number_rejected() {
    let (_, r) = parse_bytes(b"POST / HTTP/1.1\r\nContent-Length: abc\r\n\r\n");
    assert_eq!(r.unwrap_err(), ParseError::InvalidContentLength);
}

#[test]
fn content_length_beyond_room_rejected() {
    let input = b"POST / HTTP/1.1\r\nContent-Length: 100\r\n\r\nab";
    let mut reader = &input[..];
    let (_, r) = drive(&mut reader, 64);
    assert_eq!(r.unwrap_err(), ParseError::InvalidContentLength);
}

#[test]
fn content_length_huge_rejected() {
    let (_, r) = parse_bytes(b"POST / HTTP/1.1\r\nContent-Length: 99999999999999999999999999\r\n\r\n");
    assert_eq!(r.unwrap_err(), ParseError::InvalidContentLength);
}

#[test]
fn content_length_name_ignores_case() {
    let (cur, r) = parse_bytes(b"POST / HTTP/1.1\r\ncontent-LENGTH: 2\r\n\r\nok");
    assert_eq!(text(&cur, r.unwrap().body.unwrap()), "ok");
}

#[test]
fn body_cut_short_is_truncated() {
    let (_, r) = parse_bytes(b"POST / HTTP/1.1\r\nContent-Length: 5\r\n\r\nab");
    assert_eq!(r.unwrap_err(), ParseError::UnexpectedEnd);
}

#[test]
fn headers_keep_order_and_duplicates() {
    let (cur, r) = parse_bytes(b"GET /x?y=1 HTTP/1.0\r\nA: 1\r\nB:two words\r\nA:  3\r\n\r\n");
    let req = r.unwrap();
    let fields: Vec<(String, String)> = req
        .headers
        .iter()
        .map(|h| (text(&cur, h.name), text(&cur, h.value)))
        .collect();
    assert_eq!(
        fields,
        vec![
            ("A".to_string(), "1".to_string()),
            ("B".to_string(), "two words".to_string()),
            ("A".to_string(), "3".to_string()),
        ]
    );
    assert_eq!(text(&cur, req.line.uri), "/x?y=1");
}

#[test]
fn no_headers() {
    let (cur, r) = parse_bytes(b"GET / HTTP/1.1\r\n\r\n");
    let req = r.unwrap();
    assert!(req.headers.is_empty());
    assert_eq!(text(&cur, req.line.version), "HTTP/1.1");
}

#[test]
fn one_byte_reads_give_same_request() {
    let data = b"GET /a HTTP/1.1\r\nHost: x\r\nAccept: */*\r\n\r\n".to_vec();
    let (whole_cur, whole) = parse_bytes(&data);
    let mut reader = Trickle { data: data.clone(), at: 0, chunk: 1 };
    let (cur, trickled) = drive(&mut reader, CAP);
    let a = whole.unwrap();
    let b = trickled.unwrap();
    assert_eq!(a.line, b.line);
    assert_eq!(a.headers, b.headers);
    assert_eq!(whole_cur.borrow_content(), cur.borrow_content());
}

#[test]
fn blank_line_ends_headers_past_it() {
    let input = b"GET / HTTP/1.1\r\nHost: x\r\n\r\nrest";
    let mut cur = cursor_over(input, CAP, true);
    parse_request_line(&mut cur).unwrap();
    let headers = parse_headers(&mut cur).unwrap();
    assert_eq!(headers.len(), 1);
    assert_eq!(cur.position(), input.len() - 4);
}

#[test]
fn full_buffer_without_token_end_is_too_large() {
    let mut reader = &b"GETGETGETGET"[..];
    let (_, r) = drive(&mut reader, 8);
    assert_eq!(r.unwrap_err(), ParseError::TooLarge);
}

#[test]
fn full_buffer_inside_headers_is_too_large() {
    let mut reader = &b"GET / HTTP/1.1\r\nHost: example\r\n\r\n"[..];
    let (_, r) = drive(&mut reader, 20);
    assert_eq!(r.unwrap_err(), ParseError::TooLarge);
}

#[test]
fn truncated_request_line() {
    let (_, r) = parse_bytes(b"GET /a");
    assert_eq!(r.unwrap_err(), ParseError::UnexpectedEnd);
}

#[test]
fn empty_input_is_truncated() {
    let (_, r) = parse_bytes(b"");
    assert_eq!(r.unwrap_err(), ParseError::UnexpectedEnd);
}

#[test]
fn empty_method_rejected() {
    let (_, r) = parse_bytes(b" /a HTTP/1.1\r\n\r\n");
    assert_eq!(r.unwrap_err(), ParseError::EmptyToken);
}

#[test]
fn empty_header_name_rejected() {
    let (_, r) = parse_bytes(b"GET / HTTP/1.1\r\n: x\r\n\r\n");
    assert_eq!(r.unwrap_err(), ParseError::EmptyToken);
}

#[test]
fn folded_header_rejected() {
    let (_, r) = parse_bytes(b"GET / HTTP/1.1\r\nX: a\r\n b\r\n\r\n");
    assert_eq!(r.unwrap_err(), ParseError::UnsupportedContinuation);
}

#[test]
fn partial_input_asks_for_more() {
    let mut cur = cursor_over(b"GET / HTTP/1.1\r\nHost", 100, false);
    match step(&mut cur) {
        Action::Read(n) => assert_eq!(n, 100 - 20),
        other => panic!("expected a read, got {:?}", other),
    }
}

#[test]
fn parse_is_repeatable_on_same_input() {
    let mut cur = cursor_over(b"GET /a HTTP/1.1\r\nHost: x\r\n\r\n", CAP, false);
    let a = parse(&mut cur).unwrap();
    let b = parse(&mut cur).unwrap();
    assert_eq!(a.line, b.line);
    assert_eq!(a.headers, b.headers);
}

#[test]
fn render_dump_and_repeat() {
    let (cur, r) = parse_bytes(b"GET /a HTTP/1.1\r\nHost: x\r\nAccept: */*\r\n\r\n");
    let req = r.unwrap();
    let first = req.render(cur.borrow_content());
    let second = req.render(cur.borrow_content());
    assert_eq!(first, second);
    assert_eq!(
        String::from_utf8(first).unwrap(),
        "Method: GET\nURI: /a\nVersion: HTTP/1.1\nHeaders:Host: x\nAccept: */*\nTODO"
    );
}

#[test]
fn render_without_headers() {
    let (cur, r) = parse_bytes(b"HEAD / HTTP/1.0\r\n\r\n");
    let out = r.unwrap().render(cur.borrow_content());
    assert_eq!(
        String::from_utf8(out).unwrap(),
        "Method: HEAD\nURI: /\nVersion: HTTP/1.0\nNo headersTODO"
    );
}

#[test]
fn push_back_past_start_fails() {
    let mut cur = cursor_over(b"ab", 8, true);
    assert_eq!(cur.push_back(), Err(ParseError::PushBackTooFar));
    assert_eq!(cur.next(), Next::Byte(b'a'));
    assert_eq!(cur.push_back_by(2), Err(ParseError::PushBackTooFar));
    assert_eq!(cur.position(), 1);
    assert_eq!(cur.push_back_by(1), Ok(()));
    assert_eq!(cur.position(), 0);
}

#[test]
fn cursor_reports_pending_then_end() {
    let mut cur = cursor_over(b"a", 4, false);
    assert_eq!(cur.next(), Next::Byte(b'a'));
    assert_eq!(cur.next(), Next::Pending);
    cur.finish();
    assert_eq!(cur.next(), Next::End);
    let mut full = cursor_over(b"abcdef", 4, false);
    assert_eq!(full.filled(), 4);
    for _ in 0..4 {
        full.next();
    }
    assert_eq!(full.next(), Next::End);
    assert_eq!(full.into_content(), b"abcd".to_vec());
}

#[test]
fn token_and_chomp() {
    let mut cur = cursor_over(b"GET  \r\n /", 64, true);
    assert_eq!(read_token(&mut cur), Ok(Span { start: 0, end: 3 }));
    assert_eq!(chomp_whitespace_safe(&mut cur, 2), Ok(2));
    assert_eq!(cur.position(), 5);
    assert_eq!(chomp_whitespace_safe(&mut cur, 10), Ok(3));
    assert_eq!(cur.next(), Next::Byte(b'/'));
}

#[test]
fn lookahead_restores_position() {
    let mut cur = cursor_over(b"\r\nX", 64, true);
    assert_eq!(try_chomp_lws(&mut cur), Ok(None));
    assert_eq!(cur.position(), 0);
    let mut cur = cursor_over(b"\r\n \tX", 64, true);
    assert_eq!(try_chomp_lws(&mut cur), Ok(Some(4)));
    assert_eq!(cur.position(), 4);
    let mut cur = cursor_over(b"\r\n", 64, false);
    assert_eq!(try_chomp_lws(&mut cur), Err(ParseError::NeedMore));
}

#[test]
fn tab_after_colon_is_kept() {
    let (cur, r) = parse_bytes(b"GET / HTTP/1.1\r\nX:\tx\r\n\r\n");
    let req = r.unwrap();
    assert_eq!(req.headers[0].value, Span { start: 18, end: 20 });
    assert_eq!(text(&cur, req.headers[0].value), "\tx");
}

#[test]
fn value_is_read_from_the_cursor() {
    let mut cur = cursor_over(b" x\r\nY", 64, true);
    assert_eq!(read_header_value(&mut cur), Ok(Span { start: 0, end: 2 }));
    assert_eq!(cur.position(), 2);
}

#[test]
fn spaces_after_colon_are_dropped() {
    let mut cur = cursor_over(b"Host:   x\r\nY", 64, true);
    let h = parse_header(&mut cur).unwrap();
    assert_eq!(h.name, Span { start: 0, end: 4 });
    assert_eq!(h.value, Span { start: 8, end: 9 });
    assert_eq!(cur.position(), 9);
}

#[test]
fn header_line_without_colon_rejected() {
    let (_, r) = parse_bytes(b"GET / HTTP/1.1\r\nA\r\nB:x\r\n\r\n");
    assert_eq!(r.unwrap_err(), ParseError::MissingColon);
}

#[test]
fn invalid_utf8_in_uri_rejected() {
    let (_, r) = parse_bytes(b"GET /\xff HTTP/1.1\r\n\r\n");
    assert_eq!(r.unwrap_err(), ParseError::InvalidEncoding);
}

#[test]
fn invalid_utf8_in_header_value_rejected() {
    let (_, r) = parse_bytes(b"GET / HTTP/1.1\r\nX: \xc3\x28\r\n\r\n");
    assert_eq!(r.unwrap_err(), ParseError::InvalidEncoding);
}

#[test]
fn multibyte_utf8_accepted() {
    let (cur, r) = parse_bytes("GET /caf\u{e9} HTTP/1.1\r\nX: \u{1f600}\r\n\r\n".as_bytes());
    let req = r.unwrap();
    assert_eq!(text(&cur, req.line.uri), "/caf\u{e9}");
    assert_eq!(text(&cur, req.headers[0].value), "\u{1f600}");
}

#[test]
fn utf8_validity_cases() {
    assert!(is_valid_utf8(b""));
    assert!(is_valid_utf8("a\u{e9}\u{20ac}\u{10ffff}".as_bytes()));
    assert!(!is_valid_utf8(b"\xc0\x80"));
    assert!(!is_valid_utf8(b"\xed\xa0\x80"));
    assert!(!is_valid_utf8(b"\xf4\x90\x80\x80"));
    assert!(!is_valid_utf8(b"\xe2\x82"));
    assert!(!is_valid_utf8(b"\x80"));
}
