//! [`Integer`]: a `rug::Integer` that can be turned into base-256 digits and
//! built from them again.
//!
//! `rug` does the arithmetic. What this module believes of it is stated on the
//! declarations at the top of the file; everything below them is proved.

use crate::digits::{digits_value, is_canonical, lemma_trimmed, trimmed};
use rug::Integer as RugInteger;
use std::cmp::Ordering;
use vstd::prelude::*;

verus! {

/// `rug::Integer`, whose inside is not visible here.
#[verifier::external_type_specification]
#[verifier::external_body]
pub struct ExRugInteger(RugInteger);

/// The digits that `rug::Integer::to_digits::<u8>` returns for `n` with
/// `Order::Lsf`: the base-256 digits of the absolute value of `n`,
/// least-significant digit first.
pub uninterp spec fn magnitude_digits(n: RugInteger) -> Seq<u8>;

/// Whether `rug::Integer::cmp0` finds `n` to be less than zero.
pub uninterp spec fn is_negative(n: RugInteger) -> bool;

/// The number that `n` stands for: the value of its magnitude digits, with
/// its sign.
pub open spec fn signed_value(n: RugInteger) -> int {
    if is_negative(n) {
        -(digits_value(magnitude_digits(n)) as int)
    } else {
        digits_value(magnitude_digits(n)) as int
    }
}

/// Calls `rug::Integer::to_digits::<u8>` with `Order::Lsf`.
///
/// Believed of it: the vector holds the magnitude digits of `n`, and as many
/// as `significant_digits` counts, so that the high-order digit is not zero
/// and zero has no digit at all.
#[verifier::external_body]
fn rug_to_digits(n: &RugInteger) -> (digits: Vec<u8>)
    ensures
        digits@ == magnitude_digits(*n),
        is_canonical(digits@),
{
    n.to_digits::<u8>(rug::integer::Order::Lsf)
}

/// The longest sequence of digits that an integer is built from: 2^29 - 1
/// digits, which are 2^32 - 8 bits. `rug` reserves eight bits for each digit
/// before it reads them, and hands that number of bits to GMP as a C
/// `unsigned long`, which has 32 bits on some targets; GMP gives up where
/// the bits fill more limbs than a C `int` counts. Up to this length neither
/// happens on any target.
pub const MAX_DIGITS: usize = 536_870_911;

/// Calls `rug::Integer::from_digits::<u8>` with `Order::Lsf`.
///
/// `rug` panics where the number of bits does not fit, and GMP aborts where
/// it cannot hold them; the precondition leaves both out. Believed of it: the
/// result is not negative, and its magnitude digits are the digits given,
/// without their high-order zeros.
#[verifier::external_body]
fn rug_from_digits(digits: &[u8]) -> (n: RugInteger)
    requires
        digits@.len() <= MAX_DIGITS,
    ensures
        !is_negative(n),
        magnitude_digits(n) == trimmed(digits@),
{
    rug::Integer::from_digits(digits, rug::integer::Order::Lsf)
}

/// How an integer stands to zero.
#[derive(Debug, Clone, Copy, PartialEq, Eq, Structural)]
pub enum Sign {
    /// Less than zero.
    Negative,
    /// Zero.
    Zero,
    /// Greater than zero.
    Positive,
}

/// Calls `rug::Integer::cmp0`, which compares `n` with zero.
///
/// Believed of it: it finds `n` less than zero exactly where `n` is negative,
/// and equal to zero exactly where the magnitude digits of `n` denote zero.
#[verifier::external_body]
fn rug_sign(n: &RugInteger) -> (sign: Sign)
    ensures
        sign is Negative <==> is_negative(*n),
        sign is Zero <==> digits_value(magnitude_digits(*n)) == 0,
{
    match n.cmp0() {
        Ordering::Less => Sign::Negative,
        Ordering::Equal => Sign::Zero,
        Ordering::Greater => Sign::Positive,
    }
}

/// Calls `==` of `rug::Integer`, which compares the two numbers.
///
/// Believed of it: it holds exactly where both stand for the same number.
#[verifier::external_body]
fn rug_equal(a: &RugInteger, b: &RugInteger) -> (same: bool)
    ensures
        same == (signed_value(*a) == signed_value(*b)),
{
    a == b
}

/// Calls `clone` of `rug::Integer`.
///
/// Believed of it: the copy has the sign and the magnitude digits of `n`.
#[verifier::external_body]
fn rug_clone(n: &RugInteger) -> (copy: RugInteger)
    ensures
        is_negative(copy) == is_negative(*n),
        magnitude_digits(copy) == magnitude_digits(*n),
{
    n.clone()
}

/// An arbitrary-precision integer that converts to and from its base-256
/// digits. It wraps a `rug::Integer` and changes nothing about it.
#[derive(Debug)]
pub struct Integer(RugInteger);

impl View for Integer {
    type V = int;

    /// The number that the integer stands for.
    open spec fn view(&self) -> int {
        signed_value(self.inner())
    }
}

impl Integer {
    /// The wrapped `rug::Integer`.
    pub closed spec fn inner(&self) -> RugInteger {
        self.0
    }

    /// The digits that `to_digits` returns.
    pub open spec fn digits(&self) -> Seq<u8> {
        magnitude_digits(self.inner())
    }

    /// The base-256 digits of the absolute value, least-significant digit
    /// first, without high-order zeros: zero has no digits. The sign is not
    /// part of the digits, so only a value that is not negative can be built
    /// again from them.
    pub fn to_digits(&self) -> (digits: Vec<u8>)
        ensures
            digits@ == self.digits(),
            is_canonical(digits@),
            digits_value(digits@) == (if self@ < 0 { -self@ } else { self@ }),
    {
        rug_to_digits(&self.0)
    }

    /// The integer that `digits` denotes, least-significant digit first. The
    /// empty slice denotes zero, and high-order zeros change nothing. No more
    /// than `MAX_DIGITS` digits can be taken.
    pub fn from_digits(digits: &[u8]) -> (value: Integer)
        requires
            digits@.len() <= MAX_DIGITS,
        ensures
            value@ == digits_value(digits@),
            value.digits() == trimmed(digits@),
    {
        let n = rug_from_digits(digits);
        proof {
            lemma_trimmed(digits@);
        }
        Integer(n)
    }

    /// How the integer stands to zero.
    pub fn sign(&self) -> (sign: Sign)
        ensures
            sign is Negative <==> self@ < 0,
            sign is Zero <==> self@ == 0,
            sign is Positive <==> self@ > 0,
    {
        rug_sign(&self.0)
    }

    /// Whether the integer is less than zero. The digits of such an integer
    /// are those of its absolute value, so it is not built again from them.
    pub fn is_negative(&self) -> (negative: bool)
        ensures
            negative == (self@ < 0),
    {
        match self.sign() {
            Sign::Negative => true,
            _ => false,
        }
    }

    /// Unwraps the `rug::Integer`.
    pub fn into_inner(self) -> (n: RugInteger)
        ensures
            n == self.inner(),
    {
        self.0
    }
}

impl Clone for Integer {
    fn clone(&self) -> (copy: Self)
        ensures
            copy@ == self@,
            copy.digits() == self.digits(),
    {
        Integer(rug_clone(&self.0))
    }
}

impl PartialEq for Integer {
    fn eq(&self, other: &Self) -> (same: bool) {
        rug_equal(&self.0, &other.0)
    }
}

impl Eq for Integer {}

impl vstd::std_specs::cmp::PartialEqSpecImpl for Integer {
    open spec fn obeys_eq_spec() -> bool {
        true
    }

    open spec fn eq_spec(&self, other: &Integer) -> bool {
        self@ == other@
    }
}

impl From<RugInteger> for Integer {
    fn from(n: RugInteger) -> (value: Integer)
        ensures
            value.inner() == n,
    {
        Integer(n)
    }
}

impl vstd::std_specs::convert::FromSpecImpl<RugInteger> for Integer {
    open spec fn obeys_from_spec() -> bool {
        true
    }

    closed spec fn from_spec(n: RugInteger) -> Integer {
        Integer(n)
    }
}

impl From<Integer> for RugInteger {
    fn from(value: Integer) -> (n: RugInteger) {
        value.0
    }
}

impl vstd::std_specs::convert::FromSpecImpl<Integer> for RugInteger {
    open spec fn obeys_from_spec() -> bool {
        true
    }

    open spec fn from_spec(value: Integer) -> RugInteger {
        value.inner()
    }
}

impl AsRef<RugInteger> for Integer {
    fn as_ref(&self) -> (n: &RugInteger)
        ensures
            *n == self.inner(),
    {
        &self.0
    }
}

impl AsMut<RugInteger> for Integer {
    fn as_mut(&mut self) -> (n: &mut RugInteger)
        ensures
            *n == old(self).inner(),
            final(self).inner() == *final(n),
    {
        &mut self.0
    }
}

} // verus!
