//! Runs of decimal digits and the numbers they denote.

use vstd::prelude::*;

use crate::ascii::{NINE, ZERO};

verus! {

/// `byte` is one of the ASCII digits `0` to `9`.
pub open spec fn is_digit(byte: u8) -> bool {
    ZERO <= byte <= NINE
}

/// Every byte of `run` is a digit.
pub open spec fn all_digits(run: Seq<u8>) -> bool {
    forall|k: int| 0 <= k < run.len() ==> is_digit(#[trigger] run[k])
}

/// The number that `run` denotes in base ten, its first digit being the most
/// significant one. The empty run denotes zero.
pub open spec fn decimal_value(run: Seq<u8>) -> nat
    decreases run.len(),
{
    if run.len() == 0 {
        0
    } else {
        (10 * decimal_value(run.drop_last()) + (run.last() - ZERO)) as nat
    }
}

/// What a run of bytes is read as: the number it denotes, if the run is not
/// empty, holds digits only and the number fits in a `usize`.
pub open spec fn number_of(run: Seq<u8>) -> Option<usize> {
    if run.len() > 0 && all_digits(run) && decimal_value(run) <= usize::MAX {
        Some(decimal_value(run) as usize)
    } else {
        None
    }
}

/// A run of digits denotes at least as much as each of its prefixes.
pub proof fn lemma_prefix_value(run: Seq<u8>, k: int)
    requires
        all_digits(run),
        0 <= k <= run.len(),
    ensures
        decimal_value(run.take(k)) <= decimal_value(run),
    decreases run.len() - k,
{
    if k < run.len() {
        lemma_prefix_value(run, k + 1);
        assert(run.take(k + 1).drop_last() =~= run.take(k));
        assert(is_digit(run[k]));
    } else {
        assert(run.take(k) =~= run);
    }
}

/// Reads a run of bytes as a decimal number.
pub fn parse_decimal(run: &[u8]) -> (r: Option<usize>)
    ensures
        r == number_of(run@),
{
    if run.len() == 0 {
        return None;
    }
    let mut value: usize = 0;
    let mut k: usize = 0;
    while k < run.len()
        invariant
            k <= run.len(),
            all_digits(run@.take(k as int)),
            value == decimal_value(run@.take(k as int)),
        decreases run.len() - k,
    {
        let byte = run[k];
        if byte < ZERO || byte > NINE {
            assert(!is_digit(run@[k as int]));
            return None;
        }
        let digit = (byte - ZERO) as usize;
        proof {
            assert(run@.take(k + 1).drop_last() =~= run@.take(k as int));
            assert(decimal_value(run@.take(k + 1)) == 10 * value + digit);
            if all_digits(run@) {
                lemma_prefix_value(run@, k + 1);
            }
        }
        if value > (usize::MAX - digit) / 10 {
            return None;
        }
        value = value * 10 + digit;
        k += 1;
    }
    assert(run@.take(k as int) =~= run@);
    Some(value)
}

} // verus!
