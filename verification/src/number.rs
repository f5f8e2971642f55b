//! Arithmetic on the numbers of the language.
//!
//! A number is an IEEE-754 double, carried everywhere as the 64 bits of its
//! encoding. The operations themselves are performed by `rustc_apfloat`'s
//! software floats, which take and return bit patterns; each operation's
//! result is a function of the argument bits alone, and is given a name
//! below (`num_add_of` and the rest) that the contracts of the virtual
//! machine speak of.

use rustc_apfloat::Float;
use vstd::prelude::*;

verus! {

/// The bits of the IEEE-754 sum of the doubles with bits `a` and `b`.
pub uninterp spec fn num_add_of(a: u64, b: u64) -> u64;

/// The bits of the IEEE-754 difference of the doubles with bits `a` and `b`.
pub uninterp spec fn num_sub_of(a: u64, b: u64) -> u64;

/// The bits of the IEEE-754 product of the doubles with bits `a` and `b`.
pub uninterp spec fn num_mul_of(a: u64, b: u64) -> u64;

/// The bits of the IEEE-754 quotient of the doubles with bits `a` and `b`.
pub uninterp spec fn num_div_of(a: u64, b: u64) -> u64;

/// The bits of the IEEE-754 negation of the double with bits `a`.
pub uninterp spec fn num_neg_of(a: u64) -> u64;

/// Whether the double with bits `a` is less than the one with bits `b`
/// (false whenever either is NaN).
pub uninterp spec fn num_lt_of(a: u64, b: u64) -> bool;

/// Whether the double with bits `a` is greater than the one with bits `b`
/// (false whenever either is NaN).
pub uninterp spec fn num_gt_of(a: u64, b: u64) -> bool;

/// Whether the doubles with bits `a` and `b` are IEEE-754 equal
/// (false whenever either is NaN, true for the two zeroes).
pub uninterp spec fn num_eq_of(a: u64, b: u64) -> bool;

/// The bits of the double that a run of decimal digits, optionally followed
/// by a point and more digits, denotes under round-to-nearest-even.
pub uninterp spec fn num_of_lexeme(s: Seq<u8>) -> u64;

pub open spec fn is_digit(c: u8) -> bool {
    48 <= c <= 57
}

pub open spec fn all_digits(s: Seq<u8>) -> bool {
    forall|i: int| 0 <= i < s.len() ==> is_digit(#[trigger] s[i])
}

/// The exact shape of a number lexeme the scanner produces: digits,
/// optionally followed by a decimal point and more digits.
pub open spec fn is_number_lexeme(s: Seq<u8>) -> bool {
    (s.len() > 0 && all_digits(s)) || (exists|k: int|
        0 < k < s.len() - 1 && #[trigger] s[k] == 46 && all_digits(s.subrange(0, k)) && all_digits(
            s.subrange(k + 1, s.len() as int),
        ))
}

/// Relies on `Add for rustc_apfloat::ieee::Double`: the correctly rounded
/// IEEE-754 sum of the two operands, a function of their bits alone.
#[verifier::external_body]
pub(crate) fn num_add(a: u64, b: u64) -> (r: u64)
    ensures
        r == num_add_of(a, b),
{
    let x = rustc_apfloat::ieee::Double::from_bits(a as u128);
    let y = rustc_apfloat::ieee::Double::from_bits(b as u128);
    (x + y).value.to_bits() as u64
}

/// Relies on `Sub for rustc_apfloat::ieee::Double`: the correctly rounded
/// IEEE-754 difference of the two operands, a function of their bits alone.
#[verifier::external_body]
pub(crate) fn num_sub(a: u64, b: u64) -> (r: u64)
    ensures
        r == num_sub_of(a, b),
{
    let x = rustc_apfloat::ieee::Double::from_bits(a as u128);
    let y = rustc_apfloat::ieee::Double::from_bits(b as u128);
    (x - y).value.to_bits() as u64
}

/// Relies on `Mul for rustc_apfloat::ieee::Double`: the correctly rounded
/// IEEE-754 product of the two operands, a function of their bits alone.
#[verifier::external_body]
pub(crate) fn num_mul(a: u64, b: u64) -> (r: u64)
    ensures
        r == num_mul_of(a, b),
{
    let x = rustc_apfloat::ieee::Double::from_bits(a as u128);
    let y = rustc_apfloat::ieee::Double::from_bits(b as u128);
    (x * y).value.to_bits() as u64
}

/// Relies on `Div for rustc_apfloat::ieee::Double`: the correctly rounded
/// IEEE-754 quotient of the two operands, a function of their bits alone
/// (division by zero gives an infinity or NaN, never a failure).
#[verifier::external_body]
pub(crate) fn num_div(a: u64, b: u64) -> (r: u64)
    ensures
        r == num_div_of(a, b),
{
    let x = rustc_apfloat::ieee::Double::from_bits(a as u128);
    let y = rustc_apfloat::ieee::Double::from_bits(b as u128);
    (x / y).value.to_bits() as u64
}

/// Relies on `Neg for rustc_apfloat::ieee::Double`: flips the sign of the
/// operand, a function of its bits alone.
#[verifier::external_body]
pub(crate) fn num_neg(a: u64) -> (r: u64)
    ensures
        r == num_neg_of(a),
{
    let x = rustc_apfloat::ieee::Double::from_bits(a as u128);
    (-x).to_bits() as u64
}

/// Relies on `PartialOrd::lt` for `rustc_apfloat::ieee::Double`: the IEEE-754
/// ordering, under which any comparison with a NaN is false.
#[verifier::external_body]
pub(crate) fn num_lt(a: u64, b: u64) -> (r: bool)
    ensures
        r == num_lt_of(a, b),
{
    let x = rustc_apfloat::ieee::Double::from_bits(a as u128);
    let y = rustc_apfloat::ieee::Double::from_bits(b as u128);
    x < y
}

/// Relies on `PartialOrd::gt` for `rustc_apfloat::ieee::Double`: the IEEE-754
/// ordering, under which any comparison with a NaN is false.
#[verifier::external_body]
pub(crate) fn num_gt(a: u64, b: u64) -> (r: bool)
    ensures
        r == num_gt_of(a, b),
{
    let x = rustc_apfloat::ieee::Double::from_bits(a as u128);
    let y = rustc_apfloat::ieee::Double::from_bits(b as u128);
    x > y
}

/// Relies on `PartialEq::eq` for `rustc_apfloat::ieee::Double`: IEEE-754
/// equality, under which NaN equals nothing and the two zeroes are equal;
/// it is symmetric (`partial_cmp` treats both orders alike), so the call
/// also witnesses the result for the swapped arguments.
#[verifier::external_body]
pub(crate) fn num_eq(a: u64, b: u64) -> (r: bool)
    ensures
        r == num_eq_of(a, b),
        r == num_eq_of(b, a),
{
    let x = rustc_apfloat::ieee::Double::from_bits(a as u128);
    let y = rustc_apfloat::ieee::Double::from_bits(b as u128);
    x == y
}

/// Relies on `FromStr for rustc_apfloat::ieee::Double`: correctly rounded
/// decimal parsing, a function of the text alone; a nonempty run of digits,
/// optionally followed by a point and more digits, always parses.
#[verifier::external_body]
pub(crate) fn num_parse(b: &[u8]) -> (r: Option<u64>)
    ensures
        r matches Some(bits) ==> bits == num_of_lexeme(b@),
        is_number_lexeme(b@) ==> r is Some,
{
    match core::str::from_utf8(b) {
        Ok(s) => match s.parse::<rustc_apfloat::ieee::Double>() {
            Ok(d) => Some(d.to_bits() as u64),
            Err(_) => None,
        },
        Err(_) => None,
    }
}

} // verus!
