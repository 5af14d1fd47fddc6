//! Driving a parse from a byte source that the caller reads.
//!
//! The library never reads by itself: [`step`] scans what has been received
//! and says what to do next, and [`on_read`] records the outcome of the read
//! the caller performed. A caller loops: `step`; on `Read(n)`, read at most
//! `n` bytes and hand the outcome to `on_read`; stop on `Done` or `Fail`.
use vstd::prelude::*;
use crate::cursor::{MyReader, CursorModel, ParseError};
use crate::request::Request;
use crate::scan::{parse, parse_spec};
use crate::laws::lemma_end_errors_agree;
use crate::text::text_ok;

verus! {

/// What the caller should do next.
#[derive(Debug)]
pub enum Action {
    /// Read at most this many bytes from the source (one read), then call `on_read`.
    Read(usize),
    /// The request is complete; its spans refer to the cursor's content.
    Done(Request),
    /// The parse failed; no request will come from this input.
    Fail(ParseError),
}

/// The outcome of one read from the source.
#[derive(Debug)]
pub enum ReadOutcome {
    /// The bytes read; none means the source has ended.
    Bytes(Vec<u8>),
    /// The source reported an error.
    Failed,
}

/// Scans the input received so far and decides the next action: the request
/// when it is complete and its text is valid UTF-8, a read when more input is
/// needed and may come, and the failure otherwise.
pub fn step(cur: &mut MyReader) -> (a: Action)
    requires
        old(cur).wf(),
    ensures
        final(cur).wf(),
        final(cur)@.same_input(old(cur)@),
        match parse_spec(old(cur)@) {
            Ok(model) => if text_ok(model, old(cur)@.content) {
                a is Done && a->Done_0@ == model && a->Done_0.fits(old(cur)@.content.len() as int)
            } else {
                a is Fail && a->Fail_0 == ParseError::InvalidEncoding
            },
            Err(ParseError::NeedMore) => a is Read && a->Read_0 == old(cur)@.cap
                - old(cur)@.content.len() && a->Read_0 > 0,
            Err(e) => a is Fail && a->Fail_0 == e,
        },
{
    match parse(cur) {
        Ok(req) => match req.check_encoding(cur.borrow_content()) {
            Ok(()) => Action::Done(req),
            Err(e) => Action::Fail(e),
        },
        Err(ParseError::NeedMore) => {
            proof {
                lemma_end_errors_agree(old(cur)@);
            }
            Action::Read(cur.room())
        },
        Err(e) => Action::Fail(e),
    }
}

/// Records the outcome of one read: bytes are appended (as many as fit), no
/// bytes mark the end of the source, and a failed read fails the parse.
pub fn on_read(cur: &mut MyReader, outcome: ReadOutcome) -> (r: Result<(), ParseError>)
    requires
        old(cur).wf(),
    ensures
        final(cur).wf(),
        match outcome {
            ReadOutcome::Bytes(v) => r is Ok && if v@.len() == 0 {
                final(cur)@ == (CursorModel { ended: true, ..old(cur)@ })
            } else {
                final(cur)@ == (CursorModel {
                    content: old(cur)@.content + v@.subrange(
                        0,
                        vstd::math::min(v@.len() as int, old(cur)@.cap - old(cur)@.content.len()),
                    ),
                    ..old(cur)@
                })
            },
            ReadOutcome::Failed => r == Err::<(), ParseError>(ParseError::Io) && final(cur)@
                == old(cur)@,
        },
{
    match outcome {
        ReadOutcome::Bytes(v) => {
            if v.len() == 0 {
                cur.finish();
            } else {
                let _ = cur.feed(v.as_slice());
            }
            Ok(())
        },
        ReadOutcome::Failed => Err(ParseError::Io),
    }
}

} // verus!
