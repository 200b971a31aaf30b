//! Repeated scanning: one value for each step, until the input ends.

use crate::error::Error;
use crate::grammar::{line_bytes, line_stop};
use crate::line::fread_line;
use crate::scan::{answers, FromTokens, Outcome};
use crate::tokenizer::Tokenizer;
use std::marker::PhantomData;
use vstd::prelude::*;
use vstd::slice::{slice_subrange, slice_to_vec};
use vstd::utf8::{decode_utf8_encode_utf8, valid_utf8};

verus! {

/// Tells whether the step `r` of an iteration is what the outcome `o` of its scan
/// asks for: the end of the input ends the iteration, and anything else is handed
/// out, a failure too.
pub open spec fn step_of<T: DeepView>(r: Option<Result<T, Error>>, o: Outcome<T::V>) -> bool {
    match r {
        None => o is Eof,
        Some(x) => !(o is Eof) && answers(x, o),
    }
}

/// One step of an iteration over what `tokenizer` reads.
pub fn next_item<T: FromTokens>(tokenizer: &mut Tokenizer<'_, '_>) -> (r: Option<Result<T, Error>>)
    ensures
        final(tokenizer)@ == old(tokenizer)@.skip(T::scanned(old(tokenizer)@).consumed),
        step_of(r, T::scanned(old(tokenizer)@).outcome),
        *final(final(tokenizer).reader) == *final(old(tokenizer).reader),
{
    match T::from_tokens(tokenizer) {
        Err(Error::Eof) => None,
        r => Some(r),
    }
}

/// An iteration that takes its source anew at each step.
pub struct ScanIter<T: FromTokens> {
    item_type: PhantomData<T>,
}

impl<T: FromTokens> ScanIter<T> {
    /// One step on `reader`: `None` where the input ends, else the next value or the
    /// failure to read it.
    pub fn next_from(&mut self, reader: &mut &[u8]) -> (r: Option<Result<T, Error>>)
        ensures
            final(reader)@ == old(reader)@.skip(T::scanned(old(reader)@).consumed),
            step_of(r, T::scanned(old(reader)@).outcome),
    {
        let mut tokenizer = Tokenizer::new(reader);
        next_item(&mut tokenizer)
    }
}

/// An iteration over values of one type, for a source that is handed in at each step.
pub fn scan_iter<T: FromTokens>() -> ScanIter<T> {
    ScanIter { item_type: PhantomData }
}

/// An iteration over the values that a borrowed source holds.
pub struct FscanIter<'a, 'b, T: FromTokens> {
    /// The tokenizer on the source.
    pub tokenizer: Tokenizer<'a, 'b>,
    /// The type of the values.
    pub item_type: PhantomData<T>,
}

impl<'a, 'b, T: FromTokens> FscanIter<'a, 'b, T> {
    /// The bytes that are still unread.
    pub open spec fn view(&self) -> Seq<u8> {
        self.tokenizer@
    }

    /// One step: `None` where the input ends, else the next value or the failure to
    /// read it.
    pub fn next(&mut self) -> (r: Option<Result<T, Error>>)
        ensures
            final(self)@ == old(self)@.skip(T::scanned(old(self)@).consumed),
            step_of(r, T::scanned(old(self)@).outcome),
            *final(final(self).tokenizer.reader) == *final(old(self).tokenizer.reader),
    {
        next_item(&mut self.tokenizer)
    }
}

/// An iteration over the values that `reader` holds; `reader` is left where the
/// iteration stops.
pub fn fscan_iter<'a, 'b, T: FromTokens>(reader: &'a mut &'b [u8]) -> (it: FscanIter<'a, 'b, T>)
    ensures
        it@ == old(reader)@,
        *final(it.tokenizer.reader) == *final(reader),
{
    FscanIter { tokenizer: Tokenizer::new(reader), item_type: PhantomData }
}

/// An iteration over the values of one line.
pub struct ScanlnIter<T: FromTokens> {
    line: Vec<u8>,
    position: usize,
    item_type: PhantomData<T>,
}

impl<T: FromTokens> ScanlnIter<T> {
    #[verifier::type_invariant]
    spec fn within_line(self) -> bool {
        self.position <= self.line.len()
    }

    /// The bytes of the line that are still unread.
    pub closed spec fn view(&self) -> Seq<u8> {
        self.line@.skip(self.position as int)
    }

    /// One step: `None` where the line ends, else the next value or the failure to
    /// read it.
    pub fn next(&mut self) -> (r: Option<Result<T, Error>>)
        ensures
            final(self)@ == old(self)@.skip(T::scanned(old(self)@).consumed),
            step_of(r, T::scanned(old(self)@).outcome),
    {
        proof {
            use_type_invariant(&*self);
            T::lemma_scan_bounds(self@);
        }
        let mut rest: &[u8] = slice_subrange(self.line.as_slice(), self.position, self.line.len());
        let mut tokenizer = Tokenizer::new(&mut rest);
        let r = next_item(&mut tokenizer);
        let position: usize = self.line.len() - rest.len();
        assert(self.line@.skip(position as int) =~= old(self)@.skip(T::scanned(old(self)@).consumed));
        self.position = position;
        r
    }
}

/// Reads one line from `reader` for an iteration over its values. A source that is
/// exhausted gives an iteration over nothing.
pub fn fscanln_iter<T: FromTokens>(reader: &mut &[u8]) -> (r: Result<ScanlnIter<T>, Error>)
    ensures
        final(reader)@ == old(reader)@.skip(line_stop(old(reader)@)),
        r is Ok <==> old(reader)@.len() == 0 || valid_utf8(line_bytes(old(reader)@)),
        r matches Ok(it) ==> it@ == if old(reader)@.len() == 0 {
            Seq::<u8>::empty()
        } else {
            line_bytes(old(reader)@)
        },
        r matches Err(e) ==> e is EncodingError,
{
    proof {
        if valid_utf8(line_bytes(reader@)) {
            decode_utf8_encode_utf8(line_bytes(reader@));
        }
    }
    let line: Vec<u8> = match fread_line(reader) {
        Ok(Some(line)) => slice_to_vec(line.as_str().as_bytes()),
        Ok(None) => Vec::new(),
        Err(e) => {
            return Err(e);
        },
    };
    assert(line@.skip(0) =~= line@);
    Ok(ScanlnIter { line, position: 0, item_type: PhantomData })
}

} // verus!
