//! Sequences of values: a fixed count, or all that the input holds.

use crate::error::Error;
use crate::scan::{answers, failure, FromTokens, Outcome, Scanned};
use crate::tokenizer::Tokenizer;
use vstd::prelude::*;

verus! {

/// The scan of `n` values one behind the other: all of them in order, or the first
/// failure and nothing of what came before it.
pub open spec fn scanned_vec<T: FromTokens>(input: Seq<u8>, n: nat) -> Scanned<Seq<T::V>>
    decreases n,
{
    if n == 0 {
        Scanned { outcome: Outcome::Value(Seq::empty()), consumed: 0 }
    } else {
        let init = scanned_vec::<T>(input, (n - 1) as nat);
        match init.outcome {
            Outcome::Value(vs) => {
                let next = T::scanned(input.skip(init.consumed));
                Scanned {
                    outcome: match next.outcome {
                        Outcome::Value(v) => Outcome::Value(vs.push(v)),
                        other => failure(other),
                    },
                    consumed: init.consumed + next.consumed,
                }
            },
            _ => init,
        }
    }
}

/// The scan of values until the input ends: all of them in order, where the scan
/// behind the last one meets the end of the input; the first other failure, and
/// nothing of what came before it, where there is one.
pub open spec fn scanned_all<T: FromTokens>(input: Seq<u8>) -> Scanned<Seq<T::V>>
    decreases input.len(),
{
    let first = T::scanned(input);
    match first.outcome {
        Outcome::Value(v) => if 0 < first.consumed <= input.len() {
            let rest = scanned_all::<T>(input.skip(first.consumed));
            Scanned {
                outcome: match rest.outcome {
                    Outcome::Value(vs) => Outcome::Value(seq![v] + vs),
                    other => other,
                },
                consumed: first.consumed + rest.consumed,
            }
        } else {
            Scanned { outcome: Outcome::Value(seq![v]), consumed: first.consumed }
        },
        Outcome::Eof => Scanned { outcome: Outcome::Value(Seq::empty()), consumed: first.consumed },
        other => Scanned { outcome: failure(other), consumed: first.consumed },
    }
}

/// The scan `tail` behind the values `prefix`, which took `taken` bytes.
pub open spec fn extended<V>(prefix: Seq<V>, taken: int, tail: Scanned<Seq<V>>) -> Scanned<Seq<V>> {
    Scanned {
        outcome: match tail.outcome {
            Outcome::Value(vs) => Outcome::Value(prefix + vs),
            other => other,
        },
        consumed: taken + tail.consumed,
    }
}

/// A scan of `n` values stays within the input.
pub proof fn lemma_scanned_vec_bounds<T: FromTokens>(input: Seq<u8>, n: nat)
    ensures
        0 <= scanned_vec::<T>(input, n).consumed <= input.len(),
    decreases n,
{
    if n > 0 {
        lemma_scanned_vec_bounds::<T>(input, (n - 1) as nat);
        T::lemma_scan_bounds(input.skip(scanned_vec::<T>(input, (n - 1) as nat).consumed));
    }
}

/// A scan of `n` values gives `n` values or none: never a shorter sequence.
pub proof fn lemma_scanned_vec_is_whole<T: FromTokens>(input: Seq<u8>, n: nat)
    ensures
        scanned_vec::<T>(input, n).outcome matches Outcome::Value(vs) ==> vs.len() == n,
    decreases n,
{
    if n > 0 {
        lemma_scanned_vec_is_whole::<T>(input, (n - 1) as nat);
    }
}

/// The values of a scan of `n` values come in the order of the input: the first `k`
/// of them are what a scan of `k` values gives, and the next one is what one more
/// scan gives behind those.
pub proof fn lemma_scanned_vec_in_order<T: FromTokens>(input: Seq<u8>, n: nat, k: nat)
    requires
        k < n,
        scanned_vec::<T>(input, n).outcome is Value,
    ensures
        scanned_vec::<T>(input, k).outcome == Outcome::Value(
            scanned_vec::<T>(input, n).outcome->Value_0.take(k as int),
        ),
        T::scanned(input.skip(scanned_vec::<T>(input, k).consumed)).outcome == Outcome::Value(
            scanned_vec::<T>(input, n).outcome->Value_0[k as int],
        ),
    decreases n,
{
    let init = scanned_vec::<T>(input, (n - 1) as nat);
    let all = scanned_vec::<T>(input, n).outcome->Value_0;
    lemma_scanned_vec_is_whole::<T>(input, (n - 1) as nat);
    lemma_scanned_vec_is_whole::<T>(input, n);
    assert(init.outcome is Value);
    let most = init.outcome->Value_0;
    assert(all.take(n - 1) =~= most);
    if k < n - 1 {
        lemma_scanned_vec_in_order::<T>(input, (n - 1) as nat, k);
        assert(most.take(k as int) =~= all.take(k as int));
    }
}

/// A failure ends a scan of values: whatever count is asked for beyond it, the scan
/// fails in the same way at the same place.
pub proof fn lemma_scanned_vec_failure_stays<T: FromTokens>(input: Seq<u8>, k: nat, n: nat)
    requires
        k <= n,
        !(scanned_vec::<T>(input, k).outcome is Value),
    ensures
        scanned_vec::<T>(input, n) == scanned_vec::<T>(input, k),
    decreases n,
{
    if k < n {
        lemma_scanned_vec_failure_stays::<T>(input, k, (n - 1) as nat);
    }
}

/// Where the input ends behind `k` values, a scan of more than `k` values fails with
/// the end of the input.
pub proof fn lemma_scanned_vec_short_input<T: FromTokens>(input: Seq<u8>, k: nat, n: nat)
    requires
        k < n,
        scanned_vec::<T>(input, k).outcome is Value,
        T::scanned(input.skip(scanned_vec::<T>(input, k).consumed)).outcome is Eof,
    ensures
        scanned_vec::<T>(input, n).outcome is Eof,
{
    assert(scanned_vec::<T>(input, k + 1).outcome is Eof);
    lemma_scanned_vec_failure_stays::<T>(input, k + 1, n);
}

/// A scan of all values behind `k` values that a scan of `k` values gives is the scan
/// of all values from the beginning.
pub proof fn lemma_scanned_all_resumes<T: FromTokens>(input: Seq<u8>, k: nat)
    requires
        scanned_vec::<T>(input, k).outcome is Value,
    ensures
        scanned_all::<T>(input) == extended(
            scanned_vec::<T>(input, k).outcome->Value_0,
            scanned_vec::<T>(input, k).consumed,
            scanned_all::<T>(input.skip(scanned_vec::<T>(input, k).consumed)),
        ),
    decreases k,
{
    let done = scanned_vec::<T>(input, k);
    let values = done.outcome->Value_0;
    if k == 0 {
        assert(input.skip(0) =~= input);
        let tail = scanned_all::<T>(input);
        match tail.outcome {
            Outcome::Value(vs) => {
                assert(Seq::<T::V>::empty() + vs =~= vs);
            },
            _ => {},
        }
    } else {
        let init = scanned_vec::<T>(input, (k - 1) as nat);
        assert(init.outcome is Value);
        let most = init.outcome->Value_0;
        lemma_scanned_all_resumes::<T>(input, (k - 1) as nat);
        lemma_scanned_vec_bounds::<T>(input, (k - 1) as nat);
        let middle = input.skip(init.consumed);
        let next = T::scanned(middle);
        T::lemma_scan_bounds(middle);
        assert(next.outcome is Value);
        let v = next.outcome->Value_0;
        assert(middle.skip(next.consumed) =~= input.skip(done.consumed));
        let tail = scanned_all::<T>(input.skip(done.consumed));
        match tail.outcome {
            Outcome::Value(vs) => {
                assert(most + (seq![v] + vs) =~= most.push(v) + vs);
            },
            _ => {},
        }
    }
}

/// Where the input ends behind exactly `k` values, a scan of all values gives those
/// `k` values.
pub proof fn lemma_scanned_all_takes_every_value<T: FromTokens>(input: Seq<u8>, k: nat)
    requires
        scanned_vec::<T>(input, k).outcome is Value,
        T::scanned(input.skip(scanned_vec::<T>(input, k).consumed)).outcome is Eof,
    ensures
        scanned_all::<T>(input).outcome == scanned_vec::<T>(input, k).outcome,
        scanned_all::<T>(input).outcome matches Outcome::Value(vs) && vs.len() == k,
{
    lemma_scanned_all_resumes::<T>(input, k);
    lemma_scanned_vec_is_whole::<T>(input, k);
    let values = scanned_vec::<T>(input, k).outcome->Value_0;
    assert(values + Seq::<T::V>::empty() =~= values);
}

/// Where a token behind `k` values cannot be read, a scan of all values fails there
/// in the way the scan of that one value fails; it does not stop short with the
/// `k` values.
pub proof fn lemma_scanned_all_fails_at_bad_token<T: FromTokens>(input: Seq<u8>, k: nat)
    requires
        scanned_vec::<T>(input, k).outcome is Value,
        !(T::scanned(input.skip(scanned_vec::<T>(input, k).consumed)).outcome is Value),
        !(T::scanned(input.skip(scanned_vec::<T>(input, k).consumed)).outcome is Eof),
    ensures
        scanned_all::<T>(input).outcome == failure::<T::V, Seq<T::V>>(
            T::scanned(input.skip(scanned_vec::<T>(input, k).consumed)).outcome,
        ),
        !(scanned_all::<T>(input).outcome is Value),
        scanned_all::<T>(input).consumed == scanned_vec::<T>(input, k).consumed + T::scanned(
            input.skip(scanned_vec::<T>(input, k).consumed),
        ).consumed,
{
    lemma_scanned_all_resumes::<T>(input, k);
}

/// Reads exactly `n` values; the first failure is the result, and no shorter
/// sequence ever is.
pub fn scan_vec<T: FromTokens>(tokenizer: &mut Tokenizer<'_, '_>, n: usize) -> (r: Result<Vec<T>, Error>)
    ensures
        final(tokenizer)@ == old(tokenizer)@.skip(scanned_vec::<T>(old(tokenizer)@, n as nat).consumed),
        answers(r, scanned_vec::<T>(old(tokenizer)@, n as nat).outcome),
        r matches Ok(v) ==> v.len() == n,
        *final(final(tokenizer).reader) == *final(old(tokenizer).reader),
{
    let ghost input = tokenizer@;
    let mut out: Vec<T> = Vec::new();
    let mut i: usize = 0;
    proof {
        assert(input.skip(0) =~= input);
        assert(out.deep_view() =~= Seq::<T::V>::empty());
    }
    while i < n
        invariant
            i <= n,
            out.len() == i,
            input == old(tokenizer)@,
            scanned_vec::<T>(input, i as nat).outcome == Outcome::Value(out.deep_view()),
            tokenizer@ == input.skip(scanned_vec::<T>(input, i as nat).consumed),
            *final(tokenizer.reader) == *final(old(tokenizer).reader),
        decreases n - i,
    {
        let ghost before = out.deep_view();
        let ghost done = scanned_vec::<T>(input, i as nat);
        proof {
            lemma_scanned_vec_bounds::<T>(input, i as nat);
            T::lemma_scan_bounds(input.skip(done.consumed));
            assert(input.skip(done.consumed).skip(T::scanned(input.skip(done.consumed)).consumed)
                =~= input.skip(done.consumed + T::scanned(input.skip(done.consumed)).consumed));
        }
        match T::from_tokens(tokenizer) {
            Ok(v) => {
                out.push(v);
                assert(out.deep_view() =~= before.push(v.deep_view()));
            },
            Err(e) => {
                proof {
                    lemma_scanned_vec_failure_stays::<T>(input, (i + 1) as nat, n as nat);
                }
                return Err(e);
            },
        }
        i = i + 1;
    }
    Ok(out)
}

/// Reads values until the input ends, and gives them all; any other failure is the
/// result, and nothing of what was read before it.
pub fn scan_all<T: FromTokens>(tokenizer: &mut Tokenizer<'_, '_>) -> (r: Result<Vec<T>, Error>)
    ensures
        final(tokenizer)@ == old(tokenizer)@.skip(scanned_all::<T>(old(tokenizer)@).consumed),
        answers(r, scanned_all::<T>(old(tokenizer)@).outcome),
        *final(final(tokenizer).reader) == *final(old(tokenizer).reader),
{
    let ghost input = tokenizer@;
    let ghost mut taken: int = 0;
    let mut out: Vec<T> = Vec::new();
    proof {
        assert(input.skip(0) =~= input);
        assert(out.deep_view() =~= Seq::<T::V>::empty());
        match scanned_all::<T>(input).outcome {
            Outcome::Value(vs) => {
                assert(Seq::<T::V>::empty() + vs =~= vs);
            },
            _ => {},
        }
    }
    loop
        invariant
            0 <= taken <= input.len(),
            input == old(tokenizer)@,
            tokenizer@ == input.skip(taken),
            scanned_all::<T>(input) == extended(out.deep_view(), taken, scanned_all::<T>(input.skip(taken))),
            *final(tokenizer.reader) == *final(old(tokenizer).reader),
        decreases input.len() - taken,
    {
        let ghost before = out.deep_view();
        let ghost rest = input.skip(taken);
        let ghost first = T::scanned(rest);
        proof {
            T::lemma_scan_bounds(rest);
            assert(rest.skip(first.consumed) =~= input.skip(taken + first.consumed));
        }
        match T::from_tokens(tokenizer) {
            Ok(v) => {
                out.push(v);
                proof {
                    assert(out.deep_view() =~= before.push(v.deep_view()));
                    match scanned_all::<T>(rest.skip(first.consumed)).outcome {
                        Outcome::Value(vs) => {
                            assert(before + (seq![v.deep_view()] + vs) =~= before.push(v.deep_view()) + vs);
                        },
                        _ => {},
                    }
                    taken = taken + first.consumed;
                }
            },
            Err(Error::Eof) => {
                assert(before + Seq::<T::V>::empty() =~= before);
                return Ok(out);
            },
            Err(e) => {
                return Err(e);
            },
        }
    }
}

} // verus!
