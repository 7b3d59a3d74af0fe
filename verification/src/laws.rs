//! What holds between writing an integer as digits and reading it back.
//!
//! Each law is stated over what `Integer::to_digits` and
//! `Integer::from_digits` promise of their results, so it holds of every value
//! that they return. `from_digits` takes at most `MAX_DIGITS` digits, so a
//! law that reads digits back speaks of the sequences that are no longer.

use crate::digits::{
    digits_value, is_canonical, lemma_canonical_unique, lemma_trimmed, lemma_value_bounds,
    lemma_zero_value, radix_power, trimmed,
};
use crate::adapter::{
    decoded, leading_digits, lemma_leading_digits_concat, lemma_leading_digits_len, Element,
    FormatError,
};
use crate::integer::Integer;
use vstd::prelude::*;
use vstd::std_specs::cmp::PartialEqSpec;

verus! {

/// `digits` is what `Integer::to_digits` returns for `value`.
pub open spec fn is_export_of(digits: Seq<u8>, value: Integer) -> bool {
    &&& digits == value.digits()
    &&& is_canonical(digits)
    &&& digits_value(digits) == (if value@ < 0 { -value@ } else { value@ })
}

/// `value` is what `Integer::from_digits` returns for `digits`.
pub open spec fn is_import_of(value: Integer, digits: Seq<u8>) -> bool {
    &&& value@ == digits_value(digits)
    &&& value.digits() == trimmed(digits)
}

/// Reading back the digits of an integer that is not negative gives an
/// integer equal to it, with the same digits.
pub proof fn law_import_inverts_export(value: Integer, digits: Seq<u8>, rebuilt: Integer)
    requires
        value@ >= 0,
        is_export_of(digits, value),
        is_import_of(rebuilt, digits),
    ensures
        rebuilt@ == value@,
        rebuilt.eq_spec(&value),
        rebuilt.digits() == value.digits(),
{
}

/// Writing an integer that was read from digits gives those digits back,
/// without their high-order zeros: exactly those digits where they had none.
pub proof fn law_export_inverts_import(digits: Seq<u8>, value: Integer, written: Seq<u8>)
    requires
        is_import_of(value, digits),
        is_export_of(written, value),
    ensures
        written == trimmed(digits),
        is_canonical(digits) ==> written == digits,
        written.len() <= digits.len(),
{
    lemma_trimmed(digits);
}

/// Zero is written as the empty sequence, which is shorter than any other,
/// and the empty sequence is read as zero.
pub proof fn law_zero_is_empty(zero: Integer, digits: Seq<u8>, rebuilt: Integer)
    requires
        zero@ == 0,
        is_export_of(digits, zero),
        is_import_of(rebuilt, digits),
    ensures
        digits == Seq::<u8>::empty(),
        rebuilt@ == 0,
{
    lemma_zero_value(digits);
    assert(digits.len() == 0) by {
        if digits.len() > 0 {
            assert(digits.last() == 0);
        }
    }
    assert(digits =~= Seq::<u8>::empty());
}

/// An integer that is not negative is written with as few digits as can
/// denote it: with `n` digits where it is below 256 to the power of `n` and
/// not below 256 to the power of `n - 1`, and no shorter sequence denotes it.
pub proof fn law_digit_count(value: Integer, digits: Seq<u8>)
    requires
        value@ >= 0,
        is_export_of(digits, value),
    ensures
        value@ < radix_power(digits.len()),
        digits.len() > 0 ==> value@ >= radix_power((digits.len() - 1) as nat),
        forall|other: Seq<u8>| #[trigger]
            digits_value(other) == value@ ==> other.len() >= digits.len(),
{
    lemma_value_bounds(digits);
    assert forall|other: Seq<u8>| #[trigger] digits_value(other) == value@ implies other.len()
        >= digits.len() by {
        lemma_trimmed(other);
        lemma_canonical_unique(trimmed(other), digits);
    }
}

/// Two integers read from the same digits are equal to each other, and
/// equal to the integer that the digits were written from where that one is
/// not negative.
pub proof fn law_equal_reconstructions(
    source: Integer,
    digits: Seq<u8>,
    first: Integer,
    second: Integer,
)
    requires
        is_export_of(digits, source),
        is_import_of(first, digits),
        is_import_of(second, digits),
    ensures
        first.eq_spec(&second),
        first.digits() == second.digits(),
        source@ >= 0 ==> first.eq_spec(&source) && second.eq_spec(&source),
{
}

/// Integers that are not negative and are written as the same digits are
/// equal, and equal ones are written as the same digits.
pub proof fn law_digits_tell_apart(a: Integer, b: Integer, da: Seq<u8>, db: Seq<u8>)
    requires
        a@ >= 0,
        b@ >= 0,
        is_export_of(da, a),
        is_export_of(db, b),
    ensures
        a.eq_spec(&b) <==> da == db,
{
    if a@ == b@ {
        lemma_canonical_unique(da, db);
    }
}

/// A sequence of one digit denotes that digit, a number from 0 to 255.
pub proof fn law_single_digit(digits: Seq<u8>)
    requires
        digits.len() == 1,
    ensures
        digits_value(digits) == digits[0],
        digits_value(digits) <= 255,
{
    assert(digits.drop_first().len() == 0);
    assert(digits_value(digits.drop_first()) == 0);
}

/// The elements that a source hands over for a sequence that was written
/// from `digits`: each digit in its place, then the end.
pub open spec fn written_elements(digits: Seq<u8>) -> Seq<Element> {
    Seq::new(digits.len(), |i: int| Element::Digit(digits[i])).push(Element::End)
}

/// Elements that are all digits have those digits as their leading digits.
pub proof fn lemma_leading_digits_of_digits(digits: Seq<u8>)
    ensures
        leading_digits(Seq::new(digits.len(), |i: int| Element::Digit(digits[i]))) == digits,
    decreases digits.len(),
{
    let elements = Seq::new(digits.len(), |i: int| Element::Digit(digits[i]));
    if digits.len() == 0 {
        assert(leading_digits(elements) =~= digits);
    } else {
        let rest = digits.drop_first();
        lemma_leading_digits_of_digits(rest);
        assert(elements.drop_first() =~= Seq::new(rest.len(), |i: int| Element::Digit(rest[i])));
        assert(elements[0] == Element::Digit(digits[0]));
        assert(leading_digits(elements) =~= seq![digits[0]] + rest);
        assert(seq![digits[0]] + rest =~= digits);
    }
}

/// Reading what was written from `digits` ends with exactly those digits.
pub proof fn law_decode_inverts_encode(digits: Seq<u8>)
    ensures
        decoded(Seq::empty(), written_elements(digits)) == Some(
            Ok::<Seq<u8>, FormatError>(digits),
        ),
{
    let front = Seq::new(digits.len(), |i: int| Element::Digit(digits[i]));
    let back = seq![Element::End];
    lemma_leading_digits_of_digits(digits);
    lemma_leading_digits_concat(front, back);
    assert(front + back =~= written_elements(digits));
    assert(leading_digits(back) =~= Seq::<u8>::empty());
    assert(leading_digits(written_elements(digits)) =~= digits);
    assert(Seq::<u8>::empty() + digits =~= digits);
}

/// An integer that is not negative, written as a sequence and read back
/// element by element, is rebuilt as an equal integer.
pub proof fn law_sequence_round_trip(
    value: Integer,
    digits: Seq<u8>,
    read: Seq<u8>,
    rebuilt: Integer,
)
    requires
        value@ >= 0,
        is_export_of(digits, value),
        decoded(Seq::empty(), written_elements(digits)) == Some(Ok::<Seq<u8>, FormatError>(read)),
        is_import_of(rebuilt, read),
    ensures
        read == digits,
        rebuilt@ == value@,
        rebuilt.eq_spec(&value),
{
    law_decode_inverts_encode(digits);
}

/// A sequence with an invalid element before its end is rejected, whatever
/// digits stand before and whatever follows: reading it gives the error and
/// no digits.
pub proof fn law_invalid_element_is_rejected(start: Seq<u8>, elements: Seq<Element>, at: int)
    requires
        0 <= at < elements.len(),
        elements[at] is Invalid,
        forall|j: int| 0 <= j < at ==> !(elements[j] is End),
    ensures
        decoded(start, elements) matches Some(Err(error))
            && error.position == ((start.len() + leading_digits(elements).len()) as usize)
            && leading_digits(elements).len() <= at,
{
    lemma_leading_digits_len(elements);
    let lead = leading_digits(elements);
    if lead.len() > at {
        assert(elements[at] == Element::Digit(lead[at]));
    }
}

} // verus!
