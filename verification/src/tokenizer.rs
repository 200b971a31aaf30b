//! Splits a byte source into tokens and lines.

use crate::error::Error;
use crate::grammar::{
    all_separators, first_at, is_ascii_whitespace, is_blank, lemma_clean_text, lemma_line_bounds,
    lemma_token_bounds, lemma_token_is_clean, line_bytes, line_stop, newline_at, token_bytes,
    token_end, token_start, token_stop,
};
use vstd::prelude::*;
use vstd::slice::{slice_subrange, slice_to_vec};
use vstd::utf8::{decode_utf8, decode_utf8_encode_utf8, encode_utf8, valid_utf8};

verus! {

/// What reading a piece of text must give: nothing where `present` is false, else the
/// text that `bytes` encode, or an encoding error where they encode none.
pub open spec fn text_read(r: Result<Option<String>, Error>, present: bool, bytes: Seq<u8>) -> bool {
    if !present {
        r matches Ok(None)
    } else if valid_utf8(bytes) {
        r matches Ok(Some(t)) && t@ == decode_utf8(bytes)
    } else {
        r matches Err(Error::EncodingError(_))
    }
}

/// `String::from_utf8`: the text that the bytes encode where they are valid UTF-8, and
/// an error where they are not.
#[verifier::external_body]
fn string_from_utf8(bytes: Vec<u8>) -> (r: Result<String, std::string::FromUtf8Error>)
    ensures
        r is Ok <==> valid_utf8(bytes@),
        r matches Ok(t) ==> t@ == decode_utf8(bytes@),
{
    String::from_utf8(bytes)
}

/// Decodes `bytes`, where `present` says that there is a piece of text at all.
fn decode(bytes: &[u8], present: bool) -> (r: Result<Option<String>, Error>)
    ensures
        text_read(r, present, bytes@),
{
    if !present {
        return Ok(None);
    }
    match string_from_utf8(slice_to_vec(bytes)) {
        Ok(t) => Ok(Some(t)),
        Err(e) => Err(Error::EncodingError(e)),
    }
}

/// Reads tokens and lines from a byte source that it borrows. Its only state is the
/// source's cursor: the bytes that are still unread.
pub struct Tokenizer<'a, 'b> {
    /// The source; it holds the unread bytes.
    pub reader: &'a mut &'b [u8],
}

impl<'a, 'b> Tokenizer<'a, 'b> {
    /// The bytes that are still unread.
    pub open spec fn view(&self) -> Seq<u8> {
        (*self.reader)@
    }

    /// A tokenizer that reads from `reader`, which is left where the tokenizer stops.
    pub fn new(reader: &'a mut &'b [u8]) -> (t: Self)
        ensures
            t@ == old(reader)@,
            *final(t.reader) == *final(reader),
    {
        Tokenizer { reader }
    }

    /// Reads the next token: passes over the leading separators, takes the bytes up to
    /// the next separator or the end, and takes that separator too. `Ok(None)` says
    /// that only separators were left.
    pub fn next_token(&mut self) -> (r: Result<Option<String>, Error>)
        ensures
            final(self)@ == old(self)@.skip(token_stop(old(self)@)),
            0 <= token_stop(old(self)@) <= old(self)@.len(),
            text_read(r, token_bytes(old(self)@).len() > 0, token_bytes(old(self)@)),
            all_separators(old(self)@) ==> r matches Ok(None),
            r matches Ok(Some(t)) ==> {
                &&& encode_utf8(t@) == token_bytes(old(self)@)
                &&& t@.len() > 0
                &&& forall|i: int| 0 <= i < t@.len() ==> !is_blank(#[trigger] t@[i])
            },
            *final(final(self).reader) == *final(old(self).reader),
    {
        proof {
            let bytes = token_bytes(self@);
            lemma_token_bounds(self@);
            lemma_token_is_clean(self@);
            if bytes.len() > 0 && valid_utf8(bytes) {
                decode_utf8_encode_utf8(bytes);
                lemma_clean_text(decode_utf8(bytes));
            }
        }
        let s: &[u8] = *self.reader;
        let n: usize = s.len();
        let mut i: usize = 0;
        while i < n && is_ascii_whitespace(s[i])
            invariant
                i <= n == s@.len(),
                first_at(s@, i as int, false) == token_start(s@),
            decreases n - i,
        {
            i = i + 1;
        }
        let start: usize = i;
        while i < n && !is_ascii_whitespace(s[i])
            invariant
                start <= i <= n == s@.len(),
                start == token_start(s@),
                first_at(s@, i as int, true) == token_end(s@),
            decreases n - i,
        {
            i = i + 1;
        }
        let end: usize = i;
        let stop: usize = if end < n { end + 1 } else { end };
        *self.reader = slice_subrange(s, stop, n);
        decode(slice_subrange(s, start, end), start < end)
    }

    /// The next token as one step of an iteration over the tokens: `None` where only
    /// separators were left, else the token or the failure to decode it.
    pub fn next(&mut self) -> (r: Option<Result<String, Error>>)
        ensures
            final(self)@ == old(self)@.skip(token_stop(old(self)@)),
            r is None <==> token_bytes(old(self)@).len() == 0,
            r matches Some(Ok(t)) ==> valid_utf8(token_bytes(old(self)@)) && t@ == decode_utf8(
                token_bytes(old(self)@),
            ),
            r matches Some(Err(e)) ==> !valid_utf8(token_bytes(old(self)@)) && e is EncodingError,
            *final(final(self).reader) == *final(old(self).reader),
    {
        match self.next_token() {
            Ok(Some(t)) => Some(Ok(t)),
            Ok(None) => None,
            Err(e) => Some(Err(e)),
        }
    }

    /// Reads the next line: takes the bytes up to and with the next newline, or up to
    /// the end, and gives them without the newline and without one carriage return
    /// before it. `Ok(None)` says that no byte was left; an empty line is `Some`.
    pub fn next_line(&mut self) -> (r: Result<Option<String>, Error>)
        ensures
            final(self)@ == old(self)@.skip(line_stop(old(self)@)),
            0 <= line_stop(old(self)@) <= old(self)@.len(),
            text_read(r, old(self)@.len() > 0, line_bytes(old(self)@)),
            *final(final(self).reader) == *final(old(self).reader),
    {
        proof {
            lemma_line_bounds(self@);
        }
        let s: &[u8] = *self.reader;
        let n: usize = s.len();
        let mut i: usize = 0;
        while i < n && s[i] != 10
            invariant
                i <= n == s@.len(),
                newline_at(s@, i as int) == newline_at(s@, 0),
            decreases n - i,
        {
            i = i + 1;
        }
        let stop: usize = if i < n { i + 1 } else { n };
        let end: usize = if i > 0 && s[i - 1] == 13 { i - 1 } else { i };
        *self.reader = slice_subrange(s, stop, n);
        let line: &[u8] = slice_subrange(s, 0, end);
        assert(line@ =~= line_bytes(s@));
        decode(line, n > 0)
    }
}

} // verus!
