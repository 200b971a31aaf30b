//! How the text of one token is read as an integer or as a boolean.

use vstd::prelude::*;
use vstd::string::StringExecFns;

verus! {

/// Tells whether `b` is one of the ASCII digits `0` to `9`.
pub open spec fn is_digit(b: u8) -> bool {
    48 <= b <= 57
}

/// Tells whether `s` holds ASCII digits only.
pub open spec fn all_digits(s: Seq<u8>) -> bool {
    forall|i: int| 0 <= i < s.len() ==> is_digit(#[trigger] s[i])
}

/// The number that the decimal digits `s` write.
pub open spec fn digits_value(s: Seq<u8>) -> int
    decreases s.len(),
{
    if s.len() == 0 {
        0
    } else {
        digits_value(s.drop_last()) * 10 + (s.last() - 48)
    }
}

/// The integer that `s` writes: an optional `+`, or `-` where `signed` holds, and then
/// at least one decimal digit and nothing else. `None` where `s` is not of that form.
pub open spec fn integer_text(s: Seq<u8>, signed: bool) -> Option<int> {
    let negative = signed && s.len() > 0 && s[0] == 45;
    let body = if s.len() > 0 && (s[0] == 43 || negative) {
        s.skip(1)
    } else {
        s
    };
    if body.len() > 0 && all_digits(body) {
        Some(
            if negative {
                -digits_value(body)
            } else {
                digits_value(body)
            },
        )
    } else {
        None
    }
}

/// The integer that `s` writes, where it lies between `lo` and `hi`.
pub open spec fn integer_in(s: Seq<u8>, signed: bool, lo: int, hi: int) -> Option<int> {
    match integer_text(s, signed) {
        Some(v) => if lo <= v <= hi {
            Some(v)
        } else {
            None
        },
        None => None,
    }
}

/// The boolean that `s` writes: `true` or `false`, in these letters exactly.
pub open spec fn bool_text(s: Seq<u8>) -> Option<bool> {
    if s == seq![116u8, 114u8, 117u8, 101u8] {
        Some(true)
    } else if s == seq![102u8, 97u8, 108u8, 115u8, 101u8] {
        Some(false)
    } else {
        None
    }
}

/// What a parse error says of a token `text` that is no `kind`.
pub open spec fn description(kind: Seq<char>, text: Seq<char>) -> Seq<char> {
    "cannot read "@ + kind + " from "@ + text
}

/// The digits of a prefix write a number that is not negative and not above the number
/// that all the digits write.
pub proof fn lemma_digits_prefix(s: Seq<u8>, k: int)
    requires
        all_digits(s),
        0 <= k <= s.len(),
    ensures
        0 <= digits_value(s.take(k)) <= digits_value(s),
    decreases s.len(),
{
    if k == s.len() {
        assert(s.take(k) =~= s);
        if s.len() > 0 {
            lemma_digits_prefix(s.drop_last(), k - 1);
            assert(s.drop_last().take(k - 1) =~= s.drop_last());
        }
    } else {
        lemma_digits_prefix(s.drop_last(), k);
        assert(s.drop_last().take(k) =~= s.take(k));
        assert(is_digit(s.last()));
    }
}

/// Reads `text` as a decimal integer between `lo` and `hi`, with an optional sign.
pub fn parse_signed(text: &[u8], lo: i128, hi: i128) -> (r: Option<i128>)
    ensures
        match integer_in(text@, true, lo as int, hi as int) {
            Some(v) => r == Some(v as i128),
            None => r is None,
        },
{
    let n: usize = text.len();
    let negative: bool = n > 0 && text[0] == 45;
    let start: usize = if n > 0 && (text[0] == 43 || negative) { 1 } else { 0 };
    if start == n {
        return None;
    }
    let ghost body = text@.skip(start as int);
    let mut acc: i128 = 0;
    let mut i: usize = start;
    while i < n
        invariant
            start <= i <= n == text@.len(),
            start < n,
            negative == (text@.len() > 0 && text@[0] == 45),
            start == (if text@.len() > 0 && (text@[0] == 43 || negative) { 1int } else { 0int }),
            body == text@.skip(start as int),
            all_digits(body.take(i - start)),
            acc == if negative { -digits_value(body.take(i - start)) } else { digits_value(body.take(i - start)) },
        decreases n - i,
    {
        let b: u8 = text[i];
        let ghost before = body.take(i - start);
        let ghost after = body.take(i + 1 - start);
        proof {
            assert(text@.skip(0) =~= text@);
            assert(after.drop_last() =~= before);
            assert(after.last() == b);
            if all_digits(body) {
                lemma_digits_prefix(body, i + 1 - start);
                lemma_digits_prefix(body, i - start);
            }
        }
        if b < 48 || b > 57 {
            assert(!is_digit(body[i - start]));
            return None;
        }
        let d: i128 = (b - 48) as i128;
        let scaled: i128 = match acc.checked_mul(10) {
            Some(x) => x,
            None => {
                return None;
            },
        };
        let next: Option<i128> = if negative { scaled.checked_sub(d) } else { scaled.checked_add(d) };
        match next {
            Some(x) => {
                acc = x;
            },
            None => {
                return None;
            },
        }
        i = i + 1;
    }
    assert(body.take(i - start) =~= body);
    assert(text@.skip(0) =~= text@);
    if lo <= acc && acc <= hi {
        Some(acc)
    } else {
        None
    }
}

/// Reads `text` as a decimal integer between 0 and `hi`, with an optional `+`.
pub fn parse_unsigned(text: &[u8], hi: u128) -> (r: Option<u128>)
    ensures
        match integer_in(text@, false, 0, hi as int) {
            Some(v) => r == Some(v as u128),
            None => r is None,
        },
{
    let n: usize = text.len();
    let start: usize = if n > 0 && text[0] == 43 { 1 } else { 0 };
    if start == n {
        return None;
    }
    let ghost body = text@.skip(start as int);
    let mut acc: u128 = 0;
    let mut i: usize = start;
    while i < n
        invariant
            start <= i <= n == text@.len(),
            start < n,
            start == (if text@.len() > 0 && text@[0] == 43 { 1int } else { 0int }),
            body == text@.skip(start as int),
            all_digits(body.take(i - start)),
            acc == digits_value(body.take(i - start)),
        decreases n - i,
    {
        let b: u8 = text[i];
        let ghost before = body.take(i - start);
        let ghost after = body.take(i + 1 - start);
        proof {
            assert(text@.skip(0) =~= text@);
            assert(after.drop_last() =~= before);
            assert(after.last() == b);
            if all_digits(body) {
                lemma_digits_prefix(body, i + 1 - start);
                lemma_digits_prefix(body, i - start);
            }
        }
        if b < 48 || b > 57 {
            assert(!is_digit(body[i - start]));
            return None;
        }
        let d: u128 = (b - 48) as u128;
        let scaled: u128 = match acc.checked_mul(10) {
            Some(x) => x,
            None => {
                return None;
            },
        };
        match scaled.checked_add(d) {
            Some(x) => {
                acc = x;
            },
            None => {
                return None;
            },
        }
        i = i + 1;
    }
    assert(body.take(i - start) =~= body);
    assert(text@.skip(0) =~= text@);
    if acc <= hi {
        Some(acc)
    } else {
        None
    }
}

/// Reads `text` as a boolean.
pub fn parse_bool(text: &[u8]) -> (r: Option<bool>)
    ensures
        r == bool_text(text@),
{
    let n: usize = text.len();
    if n == 4 && text[0] == 116 && text[1] == 114 && text[2] == 117 && text[3] == 101 {
        assert(text@ =~= seq![116u8, 114u8, 117u8, 101u8]);
        Some(true)
    } else if n == 5 && text[0] == 102 && text[1] == 97 && text[2] == 108 && text[3] == 115 && text[4]
        == 101 {
        assert(text@ =~= seq![102u8, 97u8, 108u8, 115u8, 101u8]);
        Some(false)
    } else {
        proof {
            let t = seq![116u8, 114u8, 117u8, 101u8];
            let f = seq![102u8, 97u8, 108u8, 115u8, 101u8];
            if text@ == t {
                assert(t.len() == 4 && t[0] == 116 && t[1] == 114 && t[2] == 117 && t[3] == 101);
            }
            if text@ == f {
                assert(f.len() == 5 && f[0] == 102 && f[1] == 97 && f[2] == 108 && f[3] == 115 && f[4] == 101);
            }
        }
        None
    }
}

/// Says that the token `text` could not be read as a `kind`.
pub fn describe(kind: &str, text: &str) -> (r: String)
    ensures
        r@ == description(kind@, text@),
{
    let mut message: String = String::from_str("cannot read ");
    message.append(kind);
    message.append(" from ");
    message.append(text);
    message
}

} // verus!
