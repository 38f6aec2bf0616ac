//! Runtime numbers.
//!
//! A runtime number is an IEEE 754 binary64 value, carried as its 64-bit
//! pattern. The verifier holds no theory of floating point, so every
//! arithmetic result is given a name (an uninterpreted function of the
//! operand bits), and the operations themselves are performed by
//! `rustc_apfloat`, a software implementation of the same IEEE
//! operations, behind trusted wrappers. Negation and the test for zero
//! read the bit pattern directly and are verified.
use rustc_apfloat::Float;
use vstd::prelude::*;

verus! {

/// A numeral as the scanner produces it: one or more ASCII digits,
/// optionally followed by '.' and one or more ASCII digits.
pub open spec fn is_numeral(s: Seq<char>) -> bool {
    ||| (s.len() > 0 && all_digits(s))
    ||| (exists|k: int|
        1 <= k < s.len() - 1 && #[trigger] s[k] == '.' && all_digits(s.subrange(0, k))
            && all_digits(s.subrange(k + 1, s.len() as int)))
}

pub open spec fn is_digit_char(c: char) -> bool {
    '0' <= c <= '9'
}

pub open spec fn all_digits(s: Seq<char>) -> bool {
    forall|i: int| 0 <= i < s.len() ==> is_digit_char(#[trigger] s[i])
}

/// The bit pattern of the binary64 value a numeral denotes.
pub uninterp spec fn numeral_bits(s: Seq<char>) -> u64;

/// The bit pattern of an IEEE binary64 sum, round to nearest, ties to even.
pub uninterp spec fn add_bits(a: u64, b: u64) -> u64;

/// The bit pattern of an IEEE binary64 difference.
pub uninterp spec fn sub_bits(a: u64, b: u64) -> u64;

/// The bit pattern of an IEEE binary64 product.
pub uninterp spec fn mul_bits(a: u64, b: u64) -> u64;

/// The bit pattern of an IEEE binary64 quotient.
pub uninterp spec fn div_bits(a: u64, b: u64) -> u64;

/// How two binary64 values compare; `None` when either is a NaN.
pub uninterp spec fn cmp_bits(a: u64, b: u64) -> Option<core::cmp::Ordering>;

/// The decimal text `rustc_apfloat` renders a binary64 value as.
pub uninterp spec fn raw_text_of_bits(b: u64) -> Seq<char>;

/// Relies on rustc_apfloat's `Double: FromStr`: correctly rounded
/// decimal-to-binary64 conversion, a function of the text alone; it
/// accepts every numeral of `is_numeral`.
#[verifier::external_body]
pub(crate) fn numeral_to_bits(s: &str) -> (r: u64)
    requires
        is_numeral(s@),
    ensures
        r == numeral_bits(s@),
{
    match s.parse::<rustc_apfloat::ieee::Double>() {
        Ok(d) => d.to_bits() as u64,
        Err(_) => 0,
    }
}

/// Relies on rustc_apfloat's `Double` addition (`add_r`, round to nearest,
/// ties to even): IEEE binary64 addition, a function of the operand bits.
#[verifier::external_body]
pub(crate) fn bits_add(a: u64, b: u64) -> (r: u64)
    ensures
        r == add_bits(a, b),
{
    let x = rustc_apfloat::ieee::Double::from_bits(a as u128);
    let y = rustc_apfloat::ieee::Double::from_bits(b as u128);
    (x + y).value.to_bits() as u64
}

/// Relies on rustc_apfloat's `Double` subtraction (`sub_r`): IEEE binary64
/// subtraction, a function of the operand bits.
#[verifier::external_body]
pub(crate) fn bits_sub(a: u64, b: u64) -> (r: u64)
    ensures
        r == sub_bits(a, b),
{
    let x = rustc_apfloat::ieee::Double::from_bits(a as u128);
    let y = rustc_apfloat::ieee::Double::from_bits(b as u128);
    (x - y).value.to_bits() as u64
}

/// Relies on rustc_apfloat's `Double` multiplication (`mul_r`): IEEE
/// binary64 multiplication, a function of the operand bits.
#[verifier::external_body]
pub(crate) fn bits_mul(a: u64, b: u64) -> (r: u64)
    ensures
        r == mul_bits(a, b),
{
    let x = rustc_apfloat::ieee::Double::from_bits(a as u128);
    let y = rustc_apfloat::ieee::Double::from_bits(b as u128);
    (x * y).value.to_bits() as u64
}

/// Relies on rustc_apfloat's `Double` division (`div_r`): IEEE binary64
/// division, a function of the operand bits.
#[verifier::external_body]
pub(crate) fn bits_div(a: u64, b: u64) -> (r: u64)
    ensures
        r == div_bits(a, b),
{
    let x = rustc_apfloat::ieee::Double::from_bits(a as u128);
    let y = rustc_apfloat::ieee::Double::from_bits(b as u128);
    (x / y).value.to_bits() as u64
}

/// Relies on rustc_apfloat's `PartialOrd for Double`: the IEEE comparison,
/// in which a NaN is unordered against everything and zeros of both signs
/// are equal.
#[verifier::external_body]
pub(crate) fn bits_cmp(a: u64, b: u64) -> (r: Option<core::cmp::Ordering>)
    ensures
        r == cmp_bits(a, b),
{
    let x = rustc_apfloat::ieee::Double::from_bits(a as u128);
    let y = rustc_apfloat::ieee::Double::from_bits(b as u128);
    x.partial_cmp(&y)
}

/// Relies on rustc_apfloat's `Display for Double`: a decimal rendering with
/// enough digits to read the value back exactly, a function of the bits
/// alone. Large and small magnitudes come out in scientific notation and
/// infinities as `+Inf` / `-Inf`; `crate::text::normalize_number_text`
/// rewrites both into plain decimal form.
#[verifier::external_body]
pub(crate) fn bits_raw_text(b: u64) -> (r: String)
    ensures
        r@ == raw_text_of_bits(b),
{
    let x = rustc_apfloat::ieee::Double::from_bits(b as u128);
    format!("{}", x)
}

/// The text the interpreter prints for a number: the rendered form,
/// rewritten into plain decimal notation.
pub open spec fn num_text(b: u64) -> Seq<char> {
    crate::text::normalize_text(raw_text_of_bits(b))
}

/// Renders a number as the interpreter prints it.
pub fn number_text(b: u64) -> (r: String)
    ensures
        r@ == num_text(b),
{
    let raw = bits_raw_text(b);
    crate::text::normalize_number_text(raw.as_str())
}

/// The sign bit of a binary64 bit pattern.
pub open spec fn sign_mask() -> u64 {
    0x8000_0000_0000_0000
}

/// IEEE negation flips the sign bit and nothing else.
pub open spec fn neg_bits(b: u64) -> u64 {
    b ^ 0x8000_0000_0000_0000u64
}

pub fn bits_neg(b: u64) -> (r: u64)
    ensures
        r == neg_bits(b),
{
    b ^ 0x8000_0000_0000_0000u64
}

/// Whether a bit pattern is a zero of either sign. Division tests its
/// divisor with this, as IEEE equality holds `0.0 == -0.0`.
pub open spec fn is_zero_bits(b: u64) -> bool {
    b == 0u64 || b == 0x8000_0000_0000_0000u64
}

pub fn bits_is_zero(b: u64) -> (r: bool)
    ensures
        r == is_zero_bits(b),
{
    b == 0u64 || b == 0x8000_0000_0000_0000u64
}

} // verus!
