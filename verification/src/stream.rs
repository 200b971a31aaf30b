//! Scanning from a live source, one byte at a time. The library decides; its caller
//! reads the bytes and reports what each read gave.

use crate::error::Error;
use crate::grammar::{is_ascii_whitespace, is_separator};
use crate::scan::{answers, fscan, FromTokens};
use vstd::prelude::*;

verus! {

/// What one read from a live source gave.
pub enum ReadEvent {
    /// The next byte.
    Byte(u8),
    /// The source is exhausted.
    End,
    /// The read failed.
    Failed(std::io::Error),
}

/// What the caller of a stream scan does next.
pub enum Step<T> {
    /// Read once more and report what came.
    Read,
    /// Stop: this is the result of the scan.
    Done(Result<T, Error>),
}

/// Tells whether the byte `b` behind the bytes `seen` ends a token.
pub open spec fn ends_token(seen: Seq<u8>, b: u8) -> bool {
    is_separator(b) && seen.len() > 0 && !is_separator(seen.last())
}

/// Tells whether `step`, with `after` as the bytes that are kept, is the answer to
/// `event` behind the bytes `before` in a scan for `T`:
/// - a failed read ends the scan with that failure, and what was read is dropped;
/// - the end of the source ends the scan with what the bytes read so far give;
/// - a byte that ends a token ends the scan unless the bytes read so far run out
///   before the value is complete; any other byte is kept and asks for the next.
pub open spec fn answers_event<T: FromTokens>(
    before: Seq<u8>,
    event: ReadEvent,
    step: Step<T>,
    after: Seq<u8>,
) -> bool {
    match event {
        ReadEvent::Failed(cause) => {
            &&& step matches Step::Done(Err(Error::IoError(e)))
            &&& e == cause
            &&& after.len() == 0
        },
        ReadEvent::End => {
            &&& step matches Step::Done(r)
            &&& answers(r, T::scanned(before).outcome)
            &&& after.len() == 0
        },
        ReadEvent::Byte(b) => if ends_token(before, b) && !(T::scanned(before.push(b)).outcome is Eof) {
            &&& step matches Step::Done(r)
            &&& answers(r, T::scanned(before.push(b)).outcome)
            &&& after.len() == 0
        } else {
            &&& step is Read
            &&& after == before.push(b)
        },
    }
}

/// The state of one scan from a live source: the bytes read for it so far.
pub struct StreamScan {
    seen: Vec<u8>,
}

impl StreamScan {
    /// The bytes read so far.
    pub closed spec fn view(&self) -> Seq<u8> {
        self.seen@
    }

    /// A scan that has read nothing yet.
    pub fn new() -> (s: Self)
        ensures
            s@.len() == 0,
    {
        StreamScan { seen: Vec::new() }
    }

    /// Takes what the last read gave and says what to do next. After `Done` the state
    /// is that of a new scan.
    pub fn feed<T: FromTokens>(&mut self, event: ReadEvent) -> (step: Step<T>)
        ensures
            answers_event(old(self)@, event, step, final(self)@),
    {
        match event {
            ReadEvent::Failed(cause) => {
                self.seen = Vec::new();
                Step::Done(Err(Error::IoError(cause)))
            },
            ReadEvent::End => {
                let mut bytes: &[u8] = self.seen.as_slice();
                let r = fscan::<T>(&mut bytes);
                self.seen = Vec::new();
                Step::Done(r)
            },
            ReadEvent::Byte(b) => {
                let n: usize = self.seen.len();
                let ends: bool = is_ascii_whitespace(b) && n > 0 && !is_ascii_whitespace(self.seen[n - 1]);
                self.seen.push(b);
                if !ends {
                    return Step::Read;
                }
                let mut bytes: &[u8] = self.seen.as_slice();
                match fscan::<T>(&mut bytes) {
                    Err(Error::Eof) => Step::Read,
                    r => {
                        self.seen = Vec::new();
                        Step::Done(r)
                    },
                }
            },
        }
    }
}

} // verus!
