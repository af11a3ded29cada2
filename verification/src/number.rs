//! Numbers of the language, carried as IEEE 754 binary64 bit patterns.
//!
//! The language computes with 64-bit floating-point values, but this crate
//! keeps only the bit pattern (a `u64`) and performs every operation through
//! `rustc_apfloat`, a software implementation of IEEE 754 arithmetic whose
//! results are a function of the operand bits alone. Each operation below is
//! named by an uninterpreted spec function; nothing more is assumed of it.

use vstd::prelude::*;

use rustc_apfloat::Float;
use rustc_apfloat::ieee::Double;

verus! {

/// The bit pattern of the IEEE 754 binary64 value minus one.
pub const NEG_ONE_BITS: u64 = 0xbff0_0000_0000_0000;

/// The sum of two binary64 values, as bit patterns.
pub uninterp spec fn add_bits(a: u64, b: u64) -> u64;

/// The difference of two binary64 values, as bit patterns.
pub uninterp spec fn sub_bits(a: u64, b: u64) -> u64;

/// The product of two binary64 values, as bit patterns.
pub uninterp spec fn mul_bits(a: u64, b: u64) -> u64;

/// The quotient of two binary64 values, as bit patterns.
pub uninterp spec fn div_bits(a: u64, b: u64) -> u64;

/// The remainder (C `fmod`) of two binary64 values, as bit patterns.
pub uninterp spec fn rem_bits(a: u64, b: u64) -> u64;

/// IEEE 754 equality of two binary64 values given as bit patterns.
pub uninterp spec fn eq_bits(a: u64, b: u64) -> bool;

/// IEEE 754 `<` on two binary64 values given as bit patterns.
pub uninterp spec fn lt_bits(a: u64, b: u64) -> bool;

/// IEEE 754 `<=` on two binary64 values given as bit patterns.
pub uninterp spec fn le_bits(a: u64, b: u64) -> bool;

/// IEEE 754 `>` on two binary64 values given as bit patterns.
pub uninterp spec fn gt_bits(a: u64, b: u64) -> bool;

/// IEEE 754 `>=` on two binary64 values given as bit patterns.
pub uninterp spec fn ge_bits(a: u64, b: u64) -> bool;

/// The binary64 value denoted by a decimal literal, as a bit pattern.
pub uninterp spec fn number_bits(text: Seq<char>) -> u64;

/// The decimal rendering of a binary64 value given as a bit pattern.
pub uninterp spec fn number_text(bits: u64) -> Seq<char>;

/// A run of one or more decimal digits, optionally followed by `.` and more
/// digits; the shape of the numeric literals the scanner builds.
pub open spec fn is_number_literal(text: Seq<char>) -> bool {
    let d = digits_end(text, 0);
    &&& d > 0
    &&& {
        ||| d == text.len()
        ||| (text[d] == '.' && digits_end(text, d + 1) == text.len())
    }
}

/// The first position at or after `i` that does not hold a decimal digit.
pub open spec fn digits_end(text: Seq<char>, i: int) -> int
    decreases text.len() - i,
{
    if 0 <= i < text.len() && '0' <= text[i] <= '9' {
        digits_end(text, i + 1)
    } else {
        i
    }
}

/// Relies on `rustc_apfloat`: addition, round to nearest, ties to even.
#[verifier::external_body]
pub(crate) fn add_number(a: u64, b: u64) -> (r: u64)
    ensures
        r == add_bits(a, b),
{
    (Double::from_bits(a as u128) + Double::from_bits(b as u128)).value.to_bits() as u64
}

/// Relies on `rustc_apfloat`: subtraction, round to nearest, ties to even.
#[verifier::external_body]
pub(crate) fn sub_number(a: u64, b: u64) -> (r: u64)
    ensures
        r == sub_bits(a, b),
{
    (Double::from_bits(a as u128) - Double::from_bits(b as u128)).value.to_bits() as u64
}

/// Relies on `rustc_apfloat`: multiplication, round to nearest, ties to even.
#[verifier::external_body]
pub(crate) fn mul_number(a: u64, b: u64) -> (r: u64)
    ensures
        r == mul_bits(a, b),
{
    (Double::from_bits(a as u128) * Double::from_bits(b as u128)).value.to_bits() as u64
}

/// Relies on `rustc_apfloat`: division, round to nearest, ties to even.
#[verifier::external_body]
pub(crate) fn div_number(a: u64, b: u64) -> (r: u64)
    ensures
        r == div_bits(a, b),
{
    (Double::from_bits(a as u128) / Double::from_bits(b as u128)).value.to_bits() as u64
}

/// Relies on `rustc_apfloat`: `%` is its `c_fmod`, the C `fmod` remainder.
#[verifier::external_body]
pub(crate) fn rem_number(a: u64, b: u64) -> (r: u64)
    ensures
        r == rem_bits(a, b),
{
    (Double::from_bits(a as u128) % Double::from_bits(b as u128)).value.to_bits() as u64
}

/// Relies on `rustc_apfloat`: `PartialEq` is IEEE 754 equality.
#[verifier::external_body]
pub(crate) fn eq_number(a: u64, b: u64) -> (r: bool)
    ensures
        r == eq_bits(a, b),
{
    Double::from_bits(a as u128) == Double::from_bits(b as u128)
}

/// Relies on `rustc_apfloat`: `PartialOrd` is the IEEE 754 ordering.
#[verifier::external_body]
pub(crate) fn lt_number(a: u64, b: u64) -> (r: bool)
    ensures
        r == lt_bits(a, b),
{
    Double::from_bits(a as u128) < Double::from_bits(b as u128)
}

/// Relies on `rustc_apfloat`: `PartialOrd` is the IEEE 754 ordering.
#[verifier::external_body]
pub(crate) fn le_number(a: u64, b: u64) -> (r: bool)
    ensures
        r == le_bits(a, b),
{
    Double::from_bits(a as u128) <= Double::from_bits(b as u128)
}

/// Relies on `rustc_apfloat`: `PartialOrd` is the IEEE 754 ordering.
#[verifier::external_body]
pub(crate) fn gt_number(a: u64, b: u64) -> (r: bool)
    ensures
        r == gt_bits(a, b),
{
    Double::from_bits(a as u128) > Double::from_bits(b as u128)
}

/// Relies on `rustc_apfloat`: `PartialOrd` is the IEEE 754 ordering.
#[verifier::external_body]
pub(crate) fn ge_number(a: u64, b: u64) -> (r: bool)
    ensures
        r == ge_bits(a, b),
{
    Double::from_bits(a as u128) >= Double::from_bits(b as u128)
}

/// Relies on `rustc_apfloat`: `from_str` converts a decimal literal to
/// binary64, correctly rounded to nearest, ties to even; it accepts every
/// string of the shape `is_number_literal` describes.
#[verifier::external_body]
pub(crate) fn parse_number(text: &str) -> (r: u64)
    requires
        is_number_literal(text@),
    ensures
        r == number_bits(text@),
{
    match text.parse::<Double>() {
        Ok(d) => d.to_bits() as u64,
        Err(_) => 0,
    }
}

/// Relies on `rustc_apfloat`: `Display` renders a binary64 value as decimal
/// text, a function of the bit pattern alone.
#[verifier::external_body]
pub(crate) fn format_number(bits: u64) -> (r: String)
    ensures
        r@ == number_text(bits),
{
    format!("{}", Double::from_bits(bits as u128))
}

} // verus!
