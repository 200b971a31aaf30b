//! Line-scoped reading: one line of the source, and a scan within it.

use crate::error::Error;
use crate::grammar::{line_bytes, line_stop};
use crate::scan::{answers, FromTokens, Outcome, Scanned};
use crate::tokenizer::{text_read, Tokenizer};
use vstd::prelude::*;
use vstd::utf8::{decode_utf8_encode_utf8, valid_utf8};

verus! {

/// The scan of one value within the first line of `input`: it takes the whole line,
/// whatever the value takes of it, and meets the end of the input where the line's
/// tokens run out.
pub open spec fn scanned_line<T: FromTokens>(input: Seq<u8>) -> Scanned<T::V> {
    Scanned {
        outcome: if input.len() == 0 {
            Outcome::Eof
        } else if !valid_utf8(line_bytes(input)) {
            Outcome::Encoding
        } else {
            T::scanned(line_bytes(input)).outcome
        },
        consumed: line_stop(input),
    }
}

/// Reads one line from `reader`, without its line ending. `Ok(None)` says that the
/// source was exhausted.
pub fn fread_line(reader: &mut &[u8]) -> (r: Result<Option<String>, Error>)
    ensures
        final(reader)@ == old(reader)@.skip(line_stop(old(reader)@)),
        text_read(r, old(reader)@.len() > 0, line_bytes(old(reader)@)),
{
    let mut tokenizer = Tokenizer::new(reader);
    tokenizer.next_line()
}

/// Reads one line from `reader` and one value from the tokens of that line.
pub fn fscanln<T: FromTokens>(reader: &mut &[u8]) -> (r: Result<T, Error>)
    ensures
        final(reader)@ == old(reader)@.skip(scanned_line::<T>(old(reader)@).consumed),
        answers(r, scanned_line::<T>(old(reader)@).outcome),
{
    proof {
        if valid_utf8(line_bytes(reader@)) {
            decode_utf8_encode_utf8(line_bytes(reader@));
        }
    }
    let line = match fread_line(reader) {
        Ok(Some(line)) => line,
        Ok(None) => {
            return Err(Error::Eof);
        },
        Err(e) => {
            return Err(e);
        },
    };
    let mut bytes: &[u8] = line.as_str().as_bytes();
    let mut tokenizer = Tokenizer::new(&mut bytes);
    T::from_tokens(&mut tokenizer)
}

} // verus!
