//! The token grammar: maximal runs of bytes that are no separators, and lines.

use vstd::prelude::*;
use vstd::utf8::{encode_scalar, encode_utf8, has_width_1_encoding, leading_byte_width_1};

verus! {

/// The five bytes that separate tokens: tab, newline, form feed, carriage return and space.
pub open spec fn is_separator(b: u8) -> bool {
    b == 9 || b == 10 || b == 12 || b == 13 || b == 32
}

/// Tells whether `c` is one of the five separators, as a character.
pub open spec fn is_blank(c: char) -> bool {
    c == '\t' || c == '\n' || c == '\x0C' || c == '\r' || c == ' '
}

/// Tells whether `s` holds separators only.
pub open spec fn all_separators(s: Seq<u8>) -> bool {
    forall|i: int| 0 <= i < s.len() ==> is_separator(#[trigger] s[i])
}

/// Tells whether `s` holds no separator.
pub open spec fn no_separator(s: Seq<u8>) -> bool {
    forall|i: int| 0 <= i < s.len() ==> !is_separator(#[trigger] s[i])
}

/// The least index at or after `from` whose byte is a separator exactly when `sep` holds,
/// or the length of `s` where no such index is left.
pub open spec fn first_at(s: Seq<u8>, from: int, sep: bool) -> int
    decreases s.len() - from,
{
    if from >= s.len() {
        s.len() as int
    } else if is_separator(s[from]) == sep {
        from
    } else {
        first_at(s, from + 1, sep)
    }
}

/// Where the next token of `s` begins: behind the leading separators.
pub open spec fn token_start(s: Seq<u8>) -> int {
    first_at(s, 0, false)
}

/// Where the next token of `s` ends: at the first separator behind its beginning.
pub open spec fn token_end(s: Seq<u8>) -> int {
    first_at(s, token_start(s), true)
}

/// The bytes of the next token of `s`; empty where only separators are left.
pub open spec fn token_bytes(s: Seq<u8>) -> Seq<u8> {
    s.subrange(token_start(s), token_end(s))
}

/// How many bytes reading the next token takes from `s`: the leading separators, the
/// token, and the one separator that ends it, if there is one.
pub open spec fn token_stop(s: Seq<u8>) -> int {
    if token_end(s) < s.len() {
        token_end(s) + 1
    } else {
        token_end(s)
    }
}

/// The least index at or after `from` that holds a newline, or the length of `s`.
pub open spec fn newline_at(s: Seq<u8>, from: int) -> int
    decreases s.len() - from,
{
    if from >= s.len() {
        s.len() as int
    } else if s[from] == 10 {
        from
    } else {
        newline_at(s, from + 1)
    }
}

/// How many bytes reading a line takes from `s`: up to and with the first newline.
pub open spec fn line_stop(s: Seq<u8>) -> int {
    if newline_at(s, 0) < s.len() {
        newline_at(s, 0) + 1
    } else {
        s.len() as int
    }
}

/// The bytes of the first line of `s`, without its newline and without one carriage
/// return before it.
pub open spec fn line_bytes(s: Seq<u8>) -> Seq<u8> {
    let body = s.subrange(0, newline_at(s, 0));
    if body.len() > 0 && body.last() == 13 {
        body.drop_last()
    } else {
        body
    }
}

/// Tells whether `b` separates tokens.
pub fn is_ascii_whitespace(b: u8) -> (r: bool)
    ensures
        r == is_separator(b),
{
    b == 9 || b == 10 || b == 12 || b == 13 || b == 32
}

/// `first_at` stays within the sequence, passes over nothing it looks for, and stops on
/// what it looks for.
pub proof fn lemma_first_at(s: Seq<u8>, from: int, sep: bool)
    requires
        0 <= from <= s.len(),
    ensures
        from <= first_at(s, from, sep) <= s.len(),
        forall|i: int| from <= i < first_at(s, from, sep) ==> is_separator(#[trigger] s[i]) != sep,
        first_at(s, from, sep) < s.len() ==> is_separator(s[first_at(s, from, sep)]) == sep,
    decreases s.len() - from,
{
    if from < s.len() && is_separator(s[from]) != sep {
        lemma_first_at(s, from + 1, sep);
    }
}

/// `newline_at` stays within the sequence, passes over no newline, and stops on one.
pub proof fn lemma_newline_at(s: Seq<u8>, from: int)
    requires
        0 <= from <= s.len(),
    ensures
        from <= newline_at(s, from) <= s.len(),
        forall|i: int| from <= i < newline_at(s, from) ==> #[trigger] s[i] != 10,
        newline_at(s, from) < s.len() ==> s[newline_at(s, from)] == 10,
    decreases s.len() - from,
{
    if from < s.len() && s[from] != 10 {
        lemma_newline_at(s, from + 1);
    }
}

/// The bounds of the next token lie in order within the input.
pub proof fn lemma_token_bounds(s: Seq<u8>)
    ensures
        0 <= token_start(s) <= token_end(s) <= token_stop(s) <= s.len(),
        token_bytes(s).len() == token_end(s) - token_start(s),
        token_bytes(s).len() > 0 ==> token_stop(s) > 0,
{
    lemma_first_at(s, 0, false);
    lemma_first_at(s, token_start(s), true);
}

/// A token is never empty unless the input holds separators only, and it never holds a
/// separator.
pub proof fn lemma_token_is_clean(s: Seq<u8>)
    ensures
        no_separator(token_bytes(s)),
        token_bytes(s).len() == 0 <==> all_separators(s),
        token_bytes(s).len() == 0 ==> token_stop(s) == s.len(),
{
    lemma_first_at(s, 0, false);
    lemma_first_at(s, token_start(s), true);
    if token_start(s) < s.len() {
        assert(!is_separator(s[token_start(s)]));
    }
}

/// A line takes at least one byte from an input that is not empty, and never more than
/// there are.
pub proof fn lemma_line_bounds(s: Seq<u8>)
    ensures
        0 <= newline_at(s, 0) <= line_stop(s) <= s.len(),
        s.len() > 0 ==> line_stop(s) > 0,
        line_bytes(s).len() <= newline_at(s, 0),
        forall|i: int| 0 <= i < line_bytes(s).len() ==> #[trigger] line_bytes(s)[i] != 10,
{
    lemma_newline_at(s, 0);
}

/// A blank character is encoded as the one byte that is its separator.
proof fn lemma_blank_is_one_byte(c: char)
    requires
        is_blank(c),
    ensures
        encode_scalar(c as u32) =~= seq![c as u8],
        is_separator(c as u8),
{
    let v = c as u32;
    assert(has_width_1_encoding(v));
    assert(leading_byte_width_1(v) == v as u8) by (bit_vector)
        requires
            v <= 0x7F,
    ;
}

/// Text whose encoding holds no separator holds no blank character, and is empty
/// only where its encoding is.
pub proof fn lemma_clean_text(text: Seq<char>)
    requires
        no_separator(encode_utf8(text)),
    ensures
        forall|i: int| 0 <= i < text.len() ==> !is_blank(#[trigger] text[i]),
        encode_utf8(text).len() > 0 ==> text.len() > 0,
    decreases text.len(),
{
    if text.len() > 0 {
        let head = encode_scalar(text[0] as u32);
        let tail = encode_utf8(text.drop_first());
        assert(encode_utf8(text) == head + tail);
        if is_blank(text[0]) {
            lemma_blank_is_one_byte(text[0]);
            assert((head + tail)[0] == text[0] as u8);
        }
        assert forall|j: int| 0 <= j < tail.len() implies !is_separator(#[trigger] tail[j]) by {
            assert((head + tail)[head.len() + j] == tail[j]);
        }
        lemma_clean_text(text.drop_first());
        assert forall|i: int| 0 <= i < text.len() implies !is_blank(#[trigger] text[i]) by {
            if i > 0 {
                assert(text[i] == text.drop_first()[i - 1]);
            }
        }
    }
}

} // verus!
