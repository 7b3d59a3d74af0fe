//! The mathematics of base-256 digit sequences, least-significant digit first.

use vstd::prelude::*;

verus! {

/// The number that `digits` denotes: digit `i` counts `256^i` times.
pub open spec fn digits_value(digits: Seq<u8>) -> nat
    decreases digits.len(),
{
    if digits.len() == 0 {
        0
    } else {
        digits[0] as nat + 256 * digits_value(digits.drop_first())
    }
}

/// A sequence is canonical when its high-order digit is not zero. The empty
/// sequence is canonical and denotes zero.
pub open spec fn is_canonical(digits: Seq<u8>) -> bool {
    digits.len() == 0 || digits.last() != 0
}

/// `digits` without its high-order zero digits.
pub open spec fn trimmed(digits: Seq<u8>) -> Seq<u8>
    decreases digits.len(),
{
    if digits.len() == 0 || digits.last() != 0 {
        digits
    } else {
        trimmed(digits.drop_last())
    }
}

/// 256 to the power of `n`: the first number that `n` digits cannot denote.
pub open spec fn radix_power(n: nat) -> nat
    decreases n,
{
    if n == 0 {
        1
    } else {
        256 * radix_power((n - 1) as nat)
    }
}

/// A high-order zero digit adds nothing to the value.
pub proof fn lemma_high_zero_is_neutral(digits: Seq<u8>)
    requires
        digits.len() > 0,
        digits.last() == 0,
    ensures
        digits_value(digits.drop_last()) == digits_value(digits),
    decreases digits.len(),
{
    let shorter = digits.drop_last();
    let rest = digits.drop_first();
    if digits.len() == 1 {
        assert(digits[0] == digits.last());
        assert(digits_value(shorter) == 0);
        assert(digits_value(rest) == 0);
    } else {
        assert(rest.last() == digits.last());
        lemma_high_zero_is_neutral(rest);
        assert(shorter.drop_first() =~= rest.drop_last());
        assert(shorter[0] == digits[0]);
    }
}

/// Trimming yields a canonical prefix that denotes the same number.
pub proof fn lemma_trimmed(digits: Seq<u8>)
    ensures
        is_canonical(trimmed(digits)),
        digits_value(trimmed(digits)) == digits_value(digits),
        trimmed(digits).len() <= digits.len(),
        trimmed(digits) == digits.subrange(0, trimmed(digits).len() as int),
        forall|i: int| trimmed(digits).len() <= i < digits.len() ==> digits[i] == 0,
    decreases digits.len(),
{
    if digits.len() == 0 || digits.last() != 0 {
        assert(digits.subrange(0, digits.len() as int) =~= digits);
    } else {
        let shorter = digits.drop_last();
        lemma_trimmed(shorter);
        lemma_high_zero_is_neutral(digits);
        let n = trimmed(shorter).len() as int;
        assert(shorter.subrange(0, n) =~= digits.subrange(0, n));
        assert forall|i: int| n <= i < digits.len() implies digits[i] == 0 by {
            if i < shorter.len() {
                assert(shorter[i] == digits[i]);
            }
        }
    }
}

/// Only sequences of zero digits denote zero.
pub proof fn lemma_zero_value(digits: Seq<u8>)
    requires
        digits_value(digits) == 0,
    ensures
        forall|i: int| 0 <= i < digits.len() ==> digits[i] == 0,
    decreases digits.len(),
{
    if digits.len() > 0 {
        let rest = digits.drop_first();
        lemma_zero_value(rest);
        assert forall|i: int| 0 <= i < digits.len() implies digits[i] == 0 by {
            if i > 0 {
                assert(digits[i] == rest[i - 1]);
            }
        }
    }
}

/// Two canonical sequences that denote the same number are the same sequence.
pub proof fn lemma_canonical_unique(a: Seq<u8>, b: Seq<u8>)
    requires
        is_canonical(a),
        is_canonical(b),
        digits_value(a) == digits_value(b),
    ensures
        a == b,
    decreases a.len(),
{
    if a.len() == 0 {
        lemma_zero_value(b);
        assert(a =~= b);
    } else if b.len() == 0 {
        lemma_zero_value(a);
        assert(a =~= b);
    } else {
        let ra = a.drop_first();
        let rb = b.drop_first();
        assert(a[0] == b[0] && digits_value(ra) == digits_value(rb)) by {
            let x = digits_value(ra);
            let y = digits_value(rb);
            assert(a[0] as nat + 256 * x == b[0] as nat + 256 * y);
        }
        assert(is_canonical(ra)) by {
            if ra.len() > 0 {
                assert(ra.last() == a.last());
            }
        }
        assert(is_canonical(rb)) by {
            if rb.len() > 0 {
                assert(rb.last() == b.last());
            }
        }
        lemma_canonical_unique(ra, rb);
        assert(a =~= seq![a[0]] + ra);
        assert(b =~= seq![b[0]] + rb);
    }
}

/// `n` digits denote a number below 256 to the power of `n`, and where they
/// are canonical, and `n` is not zero, one that `n - 1` digits cannot denote.
pub proof fn lemma_value_bounds(digits: Seq<u8>)
    ensures
        digits_value(digits) < radix_power(digits.len()),
        is_canonical(digits) && digits.len() > 0 ==> digits_value(digits) >= radix_power(
            (digits.len() - 1) as nat,
        ),
    decreases digits.len(),
{
    if digits.len() > 0 {
        let rest = digits.drop_first();
        lemma_value_bounds(rest);
        assert(radix_power(digits.len()) == 256 * radix_power(rest.len()));
        if is_canonical(digits) {
            if rest.len() == 0 {
                assert(digits[0] == digits.last());
                assert(digits_value(rest) == 0);
                assert(radix_power(0) == 1);
            } else {
                assert(rest.last() == digits.last());
                assert(radix_power(rest.len()) == 256 * radix_power((rest.len() - 1) as nat));
            }
        }
    }
}

} // verus!
