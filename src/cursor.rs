//! The byte cursor: a fixed-capacity buffer that fills at its tail, with a
//! read position that moves forward one byte at a time and can be rewound.
use vstd::prelude::*;

verus! {

pub const LF: u8 = 10;
pub const CR: u8 = 13;
pub const SP: u8 = 32;
pub const HT: u8 = 9;
pub const COLON: u8 = 58;

/// Why a parse stopped without a request.
#[derive(Clone, Copy, Debug, PartialEq, Eq, Structural)]
pub enum ParseError {
    /// Every buffered byte was consumed and the source may still send more.
    NeedMore,
    /// The source ended before the message was complete.
    UnexpectedEnd,
    /// The buffer reached its capacity before the message was complete.
    TooLarge,
    /// The source reported an error while reading.
    Io,
    /// A `Content-Length` value that is not a number in `1..=room left`.
    InvalidContentLength,
    /// A header value continued on the next line (folding), which is not supported.
    UnsupportedContinuation,
    /// A rewind reached past the first byte of the buffer.
    PushBackTooFar,
    /// A request-line token or a header name was empty.
    EmptyToken,
    /// A header line ended before any colon.
    MissingColon,
    /// A span's bytes are not valid UTF-8.
    InvalidEncoding,
}

/// What the cursor yields when asked for the next byte.
#[derive(Clone, Copy, Debug, PartialEq, Eq, Structural)]
pub enum Next {
    Byte(u8),
    /// No buffered byte is left and more may arrive.
    Pending,
    /// No byte is left and none will arrive: the source ended or the buffer is full.
    End,
}

/// The abstract state of a cursor.
pub struct CursorModel {
    /// The bytes received so far (the buffer up to its fill pointer).
    pub content: Seq<u8>,
    /// How many of them the scanners have consumed.
    pub pos: int,
    /// The buffer's capacity.
    pub cap: int,
    /// Whether the source has signalled its end.
    pub ended: bool,
}

impl CursorModel {
    pub open spec fn wf(self) -> bool {
        &&& 0 <= self.pos <= self.content.len() <= self.cap
        &&& self.cap <= usize::MAX
    }

    /// The same input, read from position `p`.
    pub open spec fn at(self, p: int) -> CursorModel {
        CursorModel { pos: p, ..self }
    }

    /// Whether more bytes may still arrive.
    pub open spec fn pending(self) -> bool {
        self.content.len() < self.cap && !self.ended
    }

    /// The error a scanner reports when it needs a byte past the received ones.
    pub open spec fn end_error(self) -> ParseError {
        if self.content.len() >= self.cap {
            ParseError::TooLarge
        } else if self.ended {
            ParseError::UnexpectedEnd
        } else {
            ParseError::NeedMore
        }
    }

    /// Two models that differ at most in their position.
    pub open spec fn same_input(self, other: CursorModel) -> bool {
        &&& self.content == other.content
        &&& self.cap == other.cap
        &&& self.ended == other.ended
    }
}

/// The first index at or after `i` whose byte satisfies `stop`, or the length
/// of `s` when there is none.
pub open spec fn find_from(s: Seq<u8>, i: int, stop: spec_fn(u8) -> bool) -> int
    decreases s.len() - i,
{
    if i >= s.len() {
        s.len() as int
    } else if stop(s[i]) {
        i
    } else {
        find_from(s, i + 1, stop)
    }
}

pub proof fn lemma_find_from_bounds(s: Seq<u8>, i: int, stop: spec_fn(u8) -> bool)
    requires
        0 <= i <= s.len(),
    ensures
        i <= find_from(s, i, stop) <= s.len(),
        find_from(s, i, stop) < s.len() ==> stop(s[find_from(s, i, stop)]),
        forall|k: int| i <= k < find_from(s, i, stop) ==> !stop(#[trigger] s[k]),
    decreases s.len() - i,
{
    if i < s.len() && !stop(s[i]) {
        lemma_find_from_bounds(s, i + 1, stop);
    }
}

/// A scan passes over bytes that do not stop it.
pub proof fn lemma_find_from_skips(s: Seq<u8>, i: int, j: int, stop: spec_fn(u8) -> bool)
    requires
        0 <= i <= j <= s.len(),
        forall|k: int| i <= k < j ==> !stop(#[trigger] s[k]),
    ensures
        find_from(s, i, stop) == find_from(s, j, stop),
    decreases j - i,
{
    if i < j {
        lemma_find_from_skips(s, i + 1, j, stop);
    }
}

/// A fixed-capacity byte buffer with a fill pointer and a read position.
pub struct MyReader {
    buf: Vec<u8>,
    cap: usize,
    pos: usize,
    ended: bool,
}

impl View for MyReader {
    type V = CursorModel;

    closed spec fn view(&self) -> CursorModel {
        CursorModel { content: self.buf@, pos: self.pos as int, cap: self.cap as int, ended: self.ended }
    }
}

impl MyReader {
    pub open spec fn wf(&self) -> bool {
        self@.wf()
    }

    /// An empty cursor whose buffer holds at most `capacity` bytes.
    pub fn new(capacity: usize) -> (r: MyReader)
        ensures
            r.wf(),
            r@.content == Seq::<u8>::empty(),
            r@.pos == 0,
            r@.cap == capacity,
            !r@.ended,
    {
        MyReader { buf: Vec::new(), cap: capacity, pos: 0, ended: false }
    }

    pub fn capacity(&self) -> (r: usize)
        ensures
            r == self@.cap,
    {
        self.cap
    }

    pub fn position(&self) -> (r: usize)
        ensures
            r == self@.pos,
    {
        self.pos
    }

    pub fn filled(&self) -> (r: usize)
        ensures
            r == self@.content.len(),
    {
        self.buf.len()
    }

    pub fn is_ended(&self) -> (r: bool)
        ensures
            r == self@.ended,
    {
        self.ended
    }

    /// The error a scanner reports when it needs a byte past the received ones.
    pub fn end_error(&self) -> (r: ParseError)
        ensures
            r == self@.end_error(),
    {
        if self.buf.len() >= self.cap {
            ParseError::TooLarge
        } else if self.ended {
            ParseError::UnexpectedEnd
        } else {
            ParseError::NeedMore
        }
    }

    /// How many more bytes the buffer can take.
    pub fn room(&self) -> (r: usize)
        requires
            self.wf(),
        ensures
            r == self@.cap - self@.content.len(),
    {
        self.cap - self.buf.len()
    }

    /// Appends the bytes of one read at the buffer's tail, as many as fit.
    /// Returns how many were taken.
    pub fn feed(&mut self, data: &[u8]) -> (r: usize)
        requires
            old(self).wf(),
        ensures
            final(self).wf(),
            r == vstd::math::min(data@.len() as int, old(self)@.cap - old(self)@.content.len()),
            final(self)@ == (CursorModel {
                content: old(self)@.content + data@.subrange(0, r as int),
                ..old(self)@
            }),
    {
        let room = self.cap - self.buf.len();
        let take = if data.len() < room { data.len() } else { room };
        let mut i: usize = 0;
        while i < take
            invariant
                take <= data@.len(),
                take <= room,
                room == old(self)@.cap - old(self)@.content.len(),
                0 <= i <= take,
                self.cap == old(self).cap,
                self.pos == old(self).pos,
                self.ended == old(self).ended,
                self.buf@ == old(self)@.content + data@.subrange(0, i as int),
            decreases take - i,
        {
            self.buf.push(data[i]);
            i = i + 1;
            assert(self.buf@ =~= old(self)@.content + data@.subrange(0, i as int));
        }
        take
    }

    /// Records that the source has ended: no more bytes will arrive.
    pub fn finish(&mut self)
        requires
            old(self).wf(),
        ensures
            final(self).wf(),
            final(self)@ == (CursorModel { ended: true, ..old(self)@ }),
    {
        self.ended = true;
    }

    /// Moves the read position back to the first byte, for a new scan.
    pub fn rewind(&mut self)
        requires
            old(self).wf(),
        ensures
            final(self).wf(),
            final(self)@ == old(self)@.at(0),
    {
        self.pos = 0;
    }

    /// The next unconsumed byte, consuming it; `Pending` when the buffered
    /// bytes are used up and more may come; `End` when none will.
    pub fn next(&mut self) -> (r: Next)
        requires
            old(self).wf(),
        ensures
            final(self).wf(),
            old(self)@.pos < old(self)@.content.len() ==> {
                &&& r == Next::Byte(old(self)@.content[old(self)@.pos])
                &&& final(self)@ == old(self)@.at(old(self)@.pos + 1)
            },
            old(self)@.pos >= old(self)@.content.len() ==> {
                &&& r == (if old(self)@.pending() { Next::Pending } else { Next::End })
                &&& final(self)@ == old(self)@
            },
    {
        if self.pos < self.buf.len() {
            let b = self.buf[self.pos];
            self.pos = self.pos + 1;
            Next::Byte(b)
        } else if self.buf.len() < self.cap && !self.ended {
            Next::Pending
        } else {
            Next::End
        }
    }

    /// Rewinds the read position by one byte.
    pub fn push_back(&mut self) -> (r: Result<(), ParseError>)
        requires
            old(self).wf(),
        ensures
            final(self).wf(),
            old(self)@.pos >= 1 ==> r == Ok::<(), ParseError>(()) && final(self)@ == old(self)@.at(
                old(self)@.pos - 1,
            ),
            old(self)@.pos < 1 ==> r == Err::<(), ParseError>(ParseError::PushBackTooFar)
                && final(self)@ == old(self)@,
    {
        self.push_back_by(1)
    }

    /// Rewinds the read position by `amount` bytes; refuses to go past the
    /// first byte and then leaves the position as it was.
    pub fn push_back_by(&mut self, amount: usize) -> (r: Result<(), ParseError>)
        requires
            old(self).wf(),
        ensures
            final(self).wf(),
            amount <= old(self)@.pos ==> r == Ok::<(), ParseError>(()) && final(self)@ == old(
                self,
            )@.at(old(self)@.pos - amount),
            amount > old(self)@.pos ==> r == Err::<(), ParseError>(ParseError::PushBackTooFar)
                && final(self)@ == old(self)@,
    {
        if self.pos < amount {
            Err(ParseError::PushBackTooFar)
        } else {
            self.pos = self.pos - amount;
            Ok(())
        }
    }

    /// The bytes received so far.
    pub fn borrow_content(&self) -> (r: &[u8])
        ensures
            r@ == self@.content,
    {
        self.buf.as_slice()
    }

    /// Gives up the cursor and keeps the bytes received.
    pub fn into_content(self) -> (r: Vec<u8>)
        ensures
            r@ == self@.content,
    {
        self.buf
    }
}

} // verus!
