//! Typed scanning: what a type takes from the token stream, and how.

use crate::error::Error;
use crate::grammar::{all_separators, lemma_token_bounds, lemma_token_is_clean, token_bytes, token_stop};
use crate::parse::{
    bool_text, describe, description, integer_in, parse_bool, parse_signed, parse_unsigned,
};
use crate::tokenizer::Tokenizer;
use vstd::prelude::*;
use vstd::std_specs::iter::IteratorSpec;
use vstd::string::group_string_axioms;
use vstd::utf8::{decode_utf8, decode_utf8_encode_utf8, encode_utf8, valid_utf8};

verus! {

/// How a scan of bytes in memory ends: with a value or with a failure. No read fails
/// there, so a failed read is none of them.
pub enum Outcome<V> {
    /// The value that was read.
    Value(V),
    /// The input ended where a token was required.
    Eof,
    /// The bytes of a token are no valid UTF-8.
    Encoding,
    /// A token is not written as its type asks; the text is what the error says.
    Parse(Seq<char>),
}

/// What a scan does to an input: how it ends, and how many bytes it takes.
pub struct Scanned<V> {
    /// How the scan ends.
    pub outcome: Outcome<V>,
    /// How many bytes the scan takes from the front of the input.
    pub consumed: int,
}

/// Tells whether the result `r` of a scan is what `o` says.
pub open spec fn answers<T: DeepView>(r: Result<T, Error>, o: Outcome<T::V>) -> bool {
    match o {
        Outcome::Value(v) => r matches Ok(x) && x.deep_view() == v,
        Outcome::Eof => r matches Err(Error::Eof),
        Outcome::Encoding => r matches Err(Error::EncodingError(_)),
        Outcome::Parse(d) => r matches Err(Error::ParseError(m)) && m@ == d,
    }
}

/// The failure `o` as the outcome of a scan for another type.
pub open spec fn failure<A, B>(o: Outcome<A>) -> Outcome<B> {
    match o {
        Outcome::Encoding => Outcome::Encoding,
        Outcome::Parse(d) => Outcome::Parse(d),
        _ => Outcome::Eof,
    }
}

/// The scan of one token whose text gives `value`, or is no `kind` where `value` is
/// `None`.
pub open spec fn scan_token<V>(input: Seq<u8>, value: Option<V>, kind: Seq<char>) -> Scanned<V> {
    let bytes = token_bytes(input);
    Scanned {
        outcome: if bytes.len() == 0 {
            Outcome::Eof
        } else if !valid_utf8(bytes) {
            Outcome::Encoding
        } else {
            match value {
                Some(v) => Outcome::Value(v),
                None => Outcome::Parse(description(kind, decode_utf8(bytes))),
            }
        },
        consumed: token_stop(input),
    }
}

/// Two scans one behind the other, the second on what the first left: the pair of
/// their values, or the first failure.
pub open spec fn scan_both<A, B>(first: Scanned<A>, second: Scanned<B>) -> Scanned<(A, B)> {
    match first.outcome {
        Outcome::Value(a) => Scanned {
            outcome: match second.outcome {
                Outcome::Value(b) => Outcome::Value((a, b)),
                other => failure(other),
            },
            consumed: first.consumed + second.consumed,
        },
        other => Scanned { outcome: failure(other), consumed: first.consumed },
    }
}

/// A scan of one token meets the end of the input exactly where the input holds
/// separators only.
pub proof fn lemma_scan_token_end<V>(input: Seq<u8>, value: Option<V>, kind: Seq<char>)
    ensures
        scan_token(input, value, kind).outcome is Eof <==> all_separators(input),
        scan_token(input, value, kind).consumed == token_stop(input),
{
    lemma_token_is_clean(input);
}

/// A type that can be read from a token stream.
pub trait FromTokens: Sized + DeepView {
    /// What a scan for this type does to `input`.
    spec fn scanned(input: Seq<u8>) -> Scanned<Self::V>;

    /// A scan takes no more bytes than there are, and at least one where it gives a
    /// value.
    proof fn lemma_scan_bounds(input: Seq<u8>)
        ensures
            0 <= Self::scanned(input).consumed <= input.len(),
            Self::scanned(input).outcome is Value ==> Self::scanned(input).consumed > 0,
    ;

    /// Reads a value of this type from `tokenizer`.
    fn from_tokens(tokenizer: &mut Tokenizer<'_, '_>) -> (r: Result<Self, Error>)
        ensures
            final(tokenizer)@ == old(tokenizer)@.skip(Self::scanned(old(tokenizer)@).consumed),
            answers(r, Self::scanned(old(tokenizer)@).outcome),
            *final(final(tokenizer).reader) == *final(old(tokenizer).reader),
    ;
}

/// Reads the next token as text, which a primitive then parses.
fn token_text(tokenizer: &mut Tokenizer<'_, '_>) -> (r: Result<String, Error>)
    ensures
        final(tokenizer)@ == old(tokenizer)@.skip(token_stop(old(tokenizer)@)),
        *final(final(tokenizer).reader) == *final(old(tokenizer).reader),
        match r {
            Ok(t) => {
                &&& token_bytes(old(tokenizer)@).len() > 0
                &&& valid_utf8(token_bytes(old(tokenizer)@))
                &&& t@ == decode_utf8(token_bytes(old(tokenizer)@))
                &&& encode_utf8(t@) == token_bytes(old(tokenizer)@)
            },
            Err(e) => if token_bytes(old(tokenizer)@).len() == 0 {
                e is Eof
            } else {
                !valid_utf8(token_bytes(old(tokenizer)@)) && e is EncodingError
            },
        },
{
    proof {
        if valid_utf8(token_bytes(tokenizer@)) {
            decode_utf8_encode_utf8(token_bytes(tokenizer@));
        }
    }
    match tokenizer.next() {
        Some(r) => r,
        None => Err(Error::Eof),
    }
}

impl FromTokens for String {
    open spec fn scanned(input: Seq<u8>) -> Scanned<Seq<char>> {
        scan_token(input, Some(decode_utf8(token_bytes(input))), "String"@)
    }

    proof fn lemma_scan_bounds(input: Seq<u8>) {
        lemma_token_bounds(input);
    }

    fn from_tokens(tokenizer: &mut Tokenizer<'_, '_>) -> (r: Result<String, Error>) {
        token_text(tokenizer)
    }
}

/// The characters of `text`, one by one.
fn characters(text: &str) -> (r: Vec<char>)
    ensures
        r@ == text@,
{
    broadcast use group_string_axioms;

    let mut out: Vec<char> = Vec::new();
    let mut rest = text.chars();
    loop
        invariant
            out@ + rest.remaining() == text@,
            rest.decrease() is Some,
        decreases rest.decrease()->0,
    {
        let ghost before = rest.remaining();
        match rest.next() {
            Some(c) => {
                out.push(c);
                assert(out@ + rest.remaining() =~= (out@.drop_last() + before));
            },
            None => {
                assert(out@ + rest.remaining() =~= out@);
                return out;
            },
        }
    }
}

impl FromTokens for Vec<char> {
    open spec fn scanned(input: Seq<u8>) -> Scanned<Seq<char>> {
        scan_token(input, Some(decode_utf8(token_bytes(input))), "Vec<char>"@)
    }

    proof fn lemma_scan_bounds(input: Seq<u8>) {
        lemma_token_bounds(input);
    }

    fn from_tokens(tokenizer: &mut Tokenizer<'_, '_>) -> (r: Result<Vec<char>, Error>) {
        match token_text(tokenizer) {
            Ok(text) => {
                let out = characters(text.as_str());
                assert(out.deep_view() =~= out@);
                Ok(out)
            },
            Err(e) => Err(e),
        }
    }
}

/// Reads the next token as an integer between `lo` and `hi`, with an optional sign.
fn scan_signed(tokenizer: &mut Tokenizer<'_, '_>, lo: i128, hi: i128, kind: &str) -> (r: Result<i128, Error>)
    ensures
        final(tokenizer)@ == old(tokenizer)@.skip(token_stop(old(tokenizer)@)),
        *final(final(tokenizer).reader) == *final(old(tokenizer).reader),
        answers(
            r,
            scan_token(
                old(tokenizer)@,
                match integer_in(token_bytes(old(tokenizer)@), true, lo as int, hi as int) {
                    Some(v) => Some(v as i128),
                    None => None,
                },
                kind@,
            ).outcome,
        ),
{
    let text = match token_text(tokenizer) {
        Ok(t) => t,
        Err(e) => {
            return Err(e);
        },
    };
    match parse_signed(text.as_str().as_bytes(), lo, hi) {
        Some(v) => Ok(v),
        None => Err(Error::ParseError(describe(kind, text.as_str()))),
    }
}

/// Reads the next token as an integer between 0 and `hi`, with an optional `+`.
fn scan_unsigned(tokenizer: &mut Tokenizer<'_, '_>, hi: u128, kind: &str) -> (r: Result<u128, Error>)
    ensures
        final(tokenizer)@ == old(tokenizer)@.skip(token_stop(old(tokenizer)@)),
        *final(final(tokenizer).reader) == *final(old(tokenizer).reader),
        answers(
            r,
            scan_token(
                old(tokenizer)@,
                match integer_in(token_bytes(old(tokenizer)@), false, 0, hi as int) {
                    Some(v) => Some(v as u128),
                    None => None,
                },
                kind@,
            ).outcome,
        ),
{
    let text = match token_text(tokenizer) {
        Ok(t) => t,
        Err(e) => {
            return Err(e);
        },
    };
    match parse_unsigned(text.as_str().as_bytes(), hi) {
        Some(v) => Ok(v),
        None => Err(Error::ParseError(describe(kind, text.as_str()))),
    }
}

impl FromTokens for bool {
    open spec fn scanned(input: Seq<u8>) -> Scanned<bool> {
        scan_token(input, bool_text(token_bytes(input)), "bool"@)
    }

    proof fn lemma_scan_bounds(input: Seq<u8>) {
        lemma_token_bounds(input);
    }

    fn from_tokens(tokenizer: &mut Tokenizer<'_, '_>) -> (r: Result<bool, Error>) {
        let text = match token_text(tokenizer) {
            Ok(t) => t,
            Err(e) => {
                return Err(e);
            },
        };
        match parse_bool(text.as_str().as_bytes()) {
            Some(v) => Ok(v),
            None => Err(Error::ParseError(describe("bool", text.as_str()))),
        }
    }
}

impl FromTokens for isize {
    open spec fn scanned(input: Seq<u8>) -> Scanned<isize> {
        scan_token(
            input,
            match integer_in(token_bytes(input), true, isize::MIN as int, isize::MAX as int) {
                Some(v) => Some(v as isize),
                None => None,
            },
            "isize"@,
        )
    }

    proof fn lemma_scan_bounds(input: Seq<u8>) {
        lemma_token_bounds(input);
    }

    fn from_tokens(tokenizer: &mut Tokenizer<'_, '_>) -> (r: Result<isize, Error>) {
        match scan_signed(tokenizer, isize::MIN as i128, isize::MAX as i128, "isize") {
            Ok(v) => Ok(v as isize),
            Err(e) => Err(e),
        }
    }
}

impl FromTokens for i8 {
    open spec fn scanned(input: Seq<u8>) -> Scanned<i8> {
        scan_token(
            input,
            match integer_in(token_bytes(input), true, i8::MIN as int, i8::MAX as int) {
                Some(v) => Some(v as i8),
                None => None,
            },
            "i8"@,
        )
    }

    proof fn lemma_scan_bounds(input: Seq<u8>) {
        lemma_token_bounds(input);
    }

    fn from_tokens(tokenizer: &mut Tokenizer<'_, '_>) -> (r: Result<i8, Error>) {
        match scan_signed(tokenizer, i8::MIN as i128, i8::MAX as i128, "i8") {
            Ok(v) => Ok(v as i8),
            Err(e) => Err(e),
        }
    }
}

impl FromTokens for i16 {
    open spec fn scanned(input: Seq<u8>) -> Scanned<i16> {
        scan_token(
            input,
            match integer_in(token_bytes(input), true, i16::MIN as int, i16::MAX as int) {
                Some(v) => Some(v as i16),
                None => None,
            },
            "i16"@,
        )
    }

    proof fn lemma_scan_bounds(input: Seq<u8>) {
        lemma_token_bounds(input);
    }

    fn from_tokens(tokenizer: &mut Tokenizer<'_, '_>) -> (r: Result<i16, Error>) {
        match scan_signed(tokenizer, i16::MIN as i128, i16::MAX as i128, "i16") {
            Ok(v) => Ok(v as i16),
            Err(e) => Err(e),
        }
    }
}

impl FromTokens for i32 {
    open spec fn scanned(input: Seq<u8>) -> Scanned<i32> {
        scan_token(
            input,
            match integer_in(token_bytes(input), true, i32::MIN as int, i32::MAX as int) {
                Some(v) => Some(v as i32),
                None => None,
            },
            "i32"@,
        )
    }

    proof fn lemma_scan_bounds(input: Seq<u8>) {
        lemma_token_bounds(input);
    }

    fn from_tokens(tokenizer: &mut Tokenizer<'_, '_>) -> (r: Result<i32, Error>) {
        match scan_signed(tokenizer, i32::MIN as i128, i32::MAX as i128, "i32") {
            Ok(v) => Ok(v as i32),
            Err(e) => Err(e),
        }
    }
}

impl FromTokens for i64 {
    open spec fn scanned(input: Seq<u8>) -> Scanned<i64> {
        scan_token(
            input,
            match integer_in(token_bytes(input), true, i64::MIN as int, i64::MAX as int) {
                Some(v) => Some(v as i64),
                None => None,
            },
            "i64"@,
        )
    }

    proof fn lemma_scan_bounds(input: Seq<u8>) {
        lemma_token_bounds(input);
    }

    fn from_tokens(tokenizer: &mut Tokenizer<'_, '_>) -> (r: Result<i64, Error>) {
        match scan_signed(tokenizer, i64::MIN as i128, i64::MAX as i128, "i64") {
            Ok(v) => Ok(v as i64),
            Err(e) => Err(e),
        }
    }
}

impl FromTokens for i128 {
    open spec fn scanned(input: Seq<u8>) -> Scanned<i128> {
        scan_token(
            input,
            match integer_in(token_bytes(input), true, i128::MIN as int, i128::MAX as int) {
                Some(v) => Some(v as i128),
                None => None,
            },
            "i128"@,
        )
    }

    proof fn lemma_scan_bounds(input: Seq<u8>) {
        lemma_token_bounds(input);
    }

    fn from_tokens(tokenizer: &mut Tokenizer<'_, '_>) -> (r: Result<i128, Error>) {
        match scan_signed(tokenizer, i128::MIN as i128, i128::MAX as i128, "i128") {
            Ok(v) => Ok(v as i128),
            Err(e) => Err(e),
        }
    }
}

impl FromTokens for usize {
    open spec fn scanned(input: Seq<u8>) -> Scanned<usize> {
        scan_token(
            input,
            match integer_in(token_bytes(input), false, 0, usize::MAX as int) {
                Some(v) => Some(v as usize),
                None => None,
            },
            "usize"@,
        )
    }

    proof fn lemma_scan_bounds(input: Seq<u8>) {
        lemma_token_bounds(input);
    }

    fn from_tokens(tokenizer: &mut Tokenizer<'_, '_>) -> (r: Result<usize, Error>) {
        match scan_unsigned(tokenizer, usize::MAX as u128, "usize") {
            Ok(v) => Ok(v as usize),
            Err(e) => Err(e),
        }
    }
}

impl FromTokens for u8 {
    open spec fn scanned(input: Seq<u8>) -> Scanned<u8> {
        scan_token(
            input,
            match integer_in(token_bytes(input), false, 0, u8::MAX as int) {
                Some(v) => Some(v as u8),
                None => None,
            },
            "u8"@,
        )
    }

    proof fn lemma_scan_bounds(input: Seq<u8>) {
        lemma_token_bounds(input);
    }

    fn from_tokens(tokenizer: &mut Tokenizer<'_, '_>) -> (r: Result<u8, Error>) {
        match scan_unsigned(tokenizer, u8::MAX as u128, "u8") {
            Ok(v) => Ok(v as u8),
            Err(e) => Err(e),
        }
    }
}

impl FromTokens for u16 {
    open spec fn scanned(input: Seq<u8>) -> Scanned<u16> {
        scan_token(
            input,
            match integer_in(token_bytes(input), false, 0, u16::MAX as int) {
                Some(v) => Some(v as u16),
                None => None,
            },
            "u16"@,
        )
    }

    proof fn lemma_scan_bounds(input: Seq<u8>) {
        lemma_token_bounds(input);
    }

    fn from_tokens(tokenizer: &mut Tokenizer<'_, '_>) -> (r: Result<u16, Error>) {
        match scan_unsigned(tokenizer, u16::MAX as u128, "u16") {
            Ok(v) => Ok(v as u16),
            Err(e) => Err(e),
        }
    }
}

impl FromTokens for u32 {
    open spec fn scanned(input: Seq<u8>) -> Scanned<u32> {
        scan_token(
            input,
            match integer_in(token_bytes(input), false, 0, u32::MAX as int) {
                Some(v) => Some(v as u32),
                None => None,
            },
            "u32"@,
        )
    }

    proof fn lemma_scan_bounds(input: Seq<u8>) {
        lemma_token_bounds(input);
    }

    fn from_tokens(tokenizer: &mut Tokenizer<'_, '_>) -> (r: Result<u32, Error>) {
        match scan_unsigned(tokenizer, u32::MAX as u128, "u32") {
            Ok(v) => Ok(v as u32),
            Err(e) => Err(e),
        }
    }
}

impl FromTokens for u64 {
    open spec fn scanned(input: Seq<u8>) -> Scanned<u64> {
        scan_token(
            input,
            match integer_in(token_bytes(input), false, 0, u64::MAX as int) {
                Some(v) => Some(v as u64),
                None => None,
            },
            "u64"@,
        )
    }

    proof fn lemma_scan_bounds(input: Seq<u8>) {
        lemma_token_bounds(input);
    }

    fn from_tokens(tokenizer: &mut Tokenizer<'_, '_>) -> (r: Result<u64, Error>) {
        match scan_unsigned(tokenizer, u64::MAX as u128, "u64") {
            Ok(v) => Ok(v as u64),
            Err(e) => Err(e),
        }
    }
}

impl FromTokens for u128 {
    open spec fn scanned(input: Seq<u8>) -> Scanned<u128> {
        scan_token(
            input,
            match integer_in(token_bytes(input), false, 0, u128::MAX as int) {
                Some(v) => Some(v as u128),
                None => None,
            },
            "u128"@,
        )
    }

    proof fn lemma_scan_bounds(input: Seq<u8>) {
        lemma_token_bounds(input);
    }

    fn from_tokens(tokenizer: &mut Tokenizer<'_, '_>) -> (r: Result<u128, Error>) {
        match scan_unsigned(tokenizer, u128::MAX as u128, "u128") {
            Ok(v) => Ok(v as u128),
            Err(e) => Err(e),
        }
    }
}

impl<T1: FromTokens, T2: FromTokens> FromTokens for (T1, T2) {
    open spec fn scanned(input: Seq<u8>) -> Scanned<(T1::V, T2::V)> {
        let first = T1::scanned(input);
        scan_both(first, T2::scanned(input.skip(first.consumed)))
    }

    proof fn lemma_scan_bounds(input: Seq<u8>) {
        T1::lemma_scan_bounds(input);
        T2::lemma_scan_bounds(input.skip(T1::scanned(input).consumed));
    }

    fn from_tokens(tokenizer: &mut Tokenizer<'_, '_>) -> (r: Result<(T1, T2), Error>) {
        let ghost input = tokenizer@;
        let ghost head = T1::scanned(input);
        proof {
            T1::lemma_scan_bounds(input);
            T2::lemma_scan_bounds(input.skip(head.consumed));
            assert(input.skip(head.consumed).skip(T2::scanned(input.skip(head.consumed)).consumed)
                =~= input.skip(head.consumed + T2::scanned(input.skip(head.consumed)).consumed));
        }
        let a = match T1::from_tokens(tokenizer) {
            Ok(a) => a,
            Err(e) => {
                return Err(e);
            },
        };
        let b = match T2::from_tokens(tokenizer) {
            Ok(b) => b,
            Err(e) => {
                return Err(e);
            },
        };
        Ok((a, b))
    }
}

impl<T1: FromTokens, T2: FromTokens, T3: FromTokens> FromTokens for (T1, T2, T3) {
    open spec fn scanned(input: Seq<u8>) -> Scanned<(T1::V, T2::V, T3::V)> {
        let head = <(T1, T2)>::scanned(input);
        let both = scan_both(head, T3::scanned(input.skip(head.consumed)));
        Scanned {
            outcome: match both.outcome {
                Outcome::Value(((a, b), c)) => Outcome::Value((a, b, c)),
                other => failure(other),
            },
            consumed: both.consumed,
        }
    }

    proof fn lemma_scan_bounds(input: Seq<u8>) {
        <(T1, T2)>::lemma_scan_bounds(input);
        T3::lemma_scan_bounds(input.skip(<(T1, T2)>::scanned(input).consumed));
    }

    fn from_tokens(tokenizer: &mut Tokenizer<'_, '_>) -> (r: Result<(T1, T2, T3), Error>) {
        let ghost input = tokenizer@;
        let ghost head = <(T1, T2)>::scanned(input);
        proof {
            <(T1, T2)>::lemma_scan_bounds(input);
            T3::lemma_scan_bounds(input.skip(head.consumed));
            assert(input.skip(head.consumed).skip(T3::scanned(input.skip(head.consumed)).consumed)
                =~= input.skip(head.consumed + T3::scanned(input.skip(head.consumed)).consumed));
        }
        let (a, b) = match <(T1, T2)>::from_tokens(tokenizer) {
            Ok(head) => head,
            Err(e) => {
                return Err(e);
            },
        };
        let c = match T3::from_tokens(tokenizer) {
            Ok(c) => c,
            Err(e) => {
                return Err(e);
            },
        };
        Ok((a, b, c))
    }
}

impl<T1: FromTokens, T2: FromTokens, T3: FromTokens, T4: FromTokens> FromTokens for (T1, T2, T3, T4) {
    open spec fn scanned(input: Seq<u8>) -> Scanned<(T1::V, T2::V, T3::V, T4::V)> {
        let head = <(T1, T2, T3)>::scanned(input);
        let both = scan_both(head, T4::scanned(input.skip(head.consumed)));
        Scanned {
            outcome: match both.outcome {
                Outcome::Value(((a, b, c), d)) => Outcome::Value((a, b, c, d)),
                other => failure(other),
            },
            consumed: both.consumed,
        }
    }

    proof fn lemma_scan_bounds(input: Seq<u8>) {
        <(T1, T2, T3)>::lemma_scan_bounds(input);
        T4::lemma_scan_bounds(input.skip(<(T1, T2, T3)>::scanned(input).consumed));
    }

    fn from_tokens(tokenizer: &mut Tokenizer<'_, '_>) -> (r: Result<(T1, T2, T3, T4), Error>) {
        let ghost input = tokenizer@;
        let ghost head = <(T1, T2, T3)>::scanned(input);
        proof {
            <(T1, T2, T3)>::lemma_scan_bounds(input);
            T4::lemma_scan_bounds(input.skip(head.consumed));
            assert(input.skip(head.consumed).skip(T4::scanned(input.skip(head.consumed)).consumed)
                =~= input.skip(head.consumed + T4::scanned(input.skip(head.consumed)).consumed));
        }
        let (a, b, c) = match <(T1, T2, T3)>::from_tokens(tokenizer) {
            Ok(head) => head,
            Err(e) => {
                return Err(e);
            },
        };
        let d = match T4::from_tokens(tokenizer) {
            Ok(d) => d,
            Err(e) => {
                return Err(e);
            },
        };
        Ok((a, b, c, d))
    }
}

impl<T1: FromTokens, T2: FromTokens, T3: FromTokens, T4: FromTokens, T5: FromTokens> FromTokens for (T1, T2, T3, T4, T5) {
    open spec fn scanned(input: Seq<u8>) -> Scanned<(T1::V, T2::V, T3::V, T4::V, T5::V)> {
        let head = <(T1, T2, T3, T4)>::scanned(input);
        let both = scan_both(head, T5::scanned(input.skip(head.consumed)));
        Scanned {
            outcome: match both.outcome {
                Outcome::Value(((a, b, c, d), e)) => Outcome::Value((a, b, c, d, e)),
                other => failure(other),
            },
            consumed: both.consumed,
        }
    }

    proof fn lemma_scan_bounds(input: Seq<u8>) {
        <(T1, T2, T3, T4)>::lemma_scan_bounds(input);
        T5::lemma_scan_bounds(input.skip(<(T1, T2, T3, T4)>::scanned(input).consumed));
    }

    fn from_tokens(tokenizer: &mut Tokenizer<'_, '_>) -> (r: Result<(T1, T2, T3, T4, T5), Error>) {
        let ghost input = tokenizer@;
        let ghost head = <(T1, T2, T3, T4)>::scanned(input);
        proof {
            <(T1, T2, T3, T4)>::lemma_scan_bounds(input);
            T5::lemma_scan_bounds(input.skip(head.consumed));
            assert(input.skip(head.consumed).skip(T5::scanned(input.skip(head.consumed)).consumed)
                =~= input.skip(head.consumed + T5::scanned(input.skip(head.consumed)).consumed));
        }
        let (a, b, c, d) = match <(T1, T2, T3, T4)>::from_tokens(tokenizer) {
            Ok(head) => head,
            Err(e) => {
                return Err(e);
            },
        };
        let e = match T5::from_tokens(tokenizer) {
            Ok(e) => e,
            Err(e) => {
                return Err(e);
            },
        };
        Ok((a, b, c, d, e))
    }
}

impl<T1: FromTokens, T2: FromTokens, T3: FromTokens, T4: FromTokens, T5: FromTokens, T6: FromTokens> FromTokens for (T1, T2, T3, T4, T5, T6) {
    open spec fn scanned(input: Seq<u8>) -> Scanned<(T1::V, T2::V, T3::V, T4::V, T5::V, T6::V)> {
        let head = <(T1, T2, T3, T4, T5)>::scanned(input);
        let both = scan_both(head, T6::scanned(input.skip(head.consumed)));
        Scanned {
            outcome: match both.outcome {
                Outcome::Value(((a, b, c, d, e), f)) => Outcome::Value((a, b, c, d, e, f)),
                other => failure(other),
            },
            consumed: both.consumed,
        }
    }

    proof fn lemma_scan_bounds(input: Seq<u8>) {
        <(T1, T2, T3, T4, T5)>::lemma_scan_bounds(input);
        T6::lemma_scan_bounds(input.skip(<(T1, T2, T3, T4, T5)>::scanned(input).consumed));
    }

    fn from_tokens(tokenizer: &mut Tokenizer<'_, '_>) -> (r: Result<(T1, T2, T3, T4, T5, T6), Error>) {
        let ghost input = tokenizer@;
        let ghost head = <(T1, T2, T3, T4, T5)>::scanned(input);
        proof {
            <(T1, T2, T3, T4, T5)>::lemma_scan_bounds(input);
            T6::lemma_scan_bounds(input.skip(head.consumed));
            assert(input.skip(head.consumed).skip(T6::scanned(input.skip(head.consumed)).consumed)
                =~= input.skip(head.consumed + T6::scanned(input.skip(head.consumed)).consumed));
        }
        let (a, b, c, d, e) = match <(T1, T2, T3, T4, T5)>::from_tokens(tokenizer) {
            Ok(head) => head,
            Err(e) => {
                return Err(e);
            },
        };
        let f = match T6::from_tokens(tokenizer) {
            Ok(f) => f,
            Err(e) => {
                return Err(e);
            },
        };
        Ok((a, b, c, d, e, f))
    }
}

/// Reads one value from `reader`, which is left behind what the scan took.
pub fn fscan<T: FromTokens>(reader: &mut &[u8]) -> (r: Result<T, Error>)
    ensures
        final(reader)@ == old(reader)@.skip(T::scanned(old(reader)@).consumed),
        answers(r, T::scanned(old(reader)@).outcome),
{
    let mut tokenizer = Tokenizer::new(reader);
    T::from_tokens(&mut tokenizer)
}

} // verus!
