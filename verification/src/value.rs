//! Numeric values of the calculator.
//!
//! Every number the calculator handles is an IEEE-754 double. Inside the
//! library a value is carried as its bit pattern, a plain `u64`; the
//! arithmetic on those patterns is done by `rustc_apfloat`, whose results are
//! named by uninterpreted spec functions: two equal bit patterns always give
//! the same result bits.

use rustc_apfloat::Float;
use vstd::prelude::*;

verus! {

/// A numeric value: an IEEE-754 double held as its bit pattern.
#[derive(Clone, Copy, PartialEq, Eq, Structural, Debug, Hash)]
pub struct Num {
    pub bits: u64,
}

/// The bit pattern of the IEEE-754 double sum of two doubles given by bits.
pub uninterp spec fn add_bits(a: u64, b: u64) -> u64;

/// The bit pattern of the IEEE-754 double difference of two doubles given by bits.
pub uninterp spec fn sub_bits(a: u64, b: u64) -> u64;

/// The bit pattern of the IEEE-754 double product of two doubles given by bits.
pub uninterp spec fn mul_bits(a: u64, b: u64) -> u64;

/// The bit pattern of the IEEE-754 double quotient of two doubles given by bits.
pub uninterp spec fn div_bits(a: u64, b: u64) -> u64;

/// The bit pattern of the negation of a double given by bits.
pub uninterp spec fn neg_bits(a: u64) -> u64;

/// What a numeric literal denotes: the nearest IEEE-754 double, by bits, or
/// nothing when the text is not a valid literal.
pub uninterp spec fn parse_f64(text: Seq<char>) -> Option<u64>;

impl Num {
    /// Relies on rustc_apfloat's ieee::Double addition (round to nearest, ties
    /// to even): the result depends on the operand bit patterns alone.
    #[verifier::external_body]
    pub(crate) fn add(self, other: Num) -> (r: Num)
        ensures
            r.bits == add_bits(self.bits, other.bits),
    {
        let a = rustc_apfloat::ieee::Double::from_bits(self.bits as u128);
        let b = rustc_apfloat::ieee::Double::from_bits(other.bits as u128);
        Num { bits: (a + b).value.to_bits() as u64 }
    }

    /// Relies on rustc_apfloat's ieee::Double subtraction (round to nearest,
    /// ties to even): the result depends on the operand bit patterns alone.
    #[verifier::external_body]
    pub(crate) fn sub(self, other: Num) -> (r: Num)
        ensures
            r.bits == sub_bits(self.bits, other.bits),
    {
        let a = rustc_apfloat::ieee::Double::from_bits(self.bits as u128);
        let b = rustc_apfloat::ieee::Double::from_bits(other.bits as u128);
        Num { bits: (a - b).value.to_bits() as u64 }
    }

    /// Relies on rustc_apfloat's ieee::Double multiplication (round to nearest,
    /// ties to even): the result depends on the operand bit patterns alone.
    #[verifier::external_body]
    pub(crate) fn mul(self, other: Num) -> (r: Num)
        ensures
            r.bits == mul_bits(self.bits, other.bits),
    {
        let a = rustc_apfloat::ieee::Double::from_bits(self.bits as u128);
        let b = rustc_apfloat::ieee::Double::from_bits(other.bits as u128);
        Num { bits: (a * b).value.to_bits() as u64 }
    }

    /// Relies on rustc_apfloat's ieee::Double division (round to nearest, ties
    /// to even; division by zero gives an infinity or NaN, never a failure):
    /// the result depends on the operand bit patterns alone.
    #[verifier::external_body]
    pub(crate) fn div(self, other: Num) -> (r: Num)
        ensures
            r.bits == div_bits(self.bits, other.bits),
    {
        let a = rustc_apfloat::ieee::Double::from_bits(self.bits as u128);
        let b = rustc_apfloat::ieee::Double::from_bits(other.bits as u128);
        Num { bits: (a / b).value.to_bits() as u64 }
    }

    /// Relies on rustc_apfloat's ieee::Double negation: the result depends on
    /// the operand bit pattern alone.
    #[verifier::external_body]
    pub(crate) fn neg(self) -> (r: Num)
        ensures
            r.bits == neg_bits(self.bits),
    {
        let a = rustc_apfloat::ieee::Double::from_bits(self.bits as u128);
        Num { bits: (-a).to_bits() as u64 }
    }
}

/// Relies on rustc_apfloat's decimal-to-double conversion (round to nearest,
/// ties to even): whether the text parses, and to which bits, depends on the
/// text alone.
#[verifier::external_body]
pub(crate) fn parse_number_text(text: &String) -> (r: Option<Num>)
    ensures
        match r {
            Some(n) => parse_f64(text@) == Some(n.bits),
            None => parse_f64(text@) is None,
        },
{
    match text.as_str().parse::<rustc_apfloat::ieee::Double>() {
        Ok(d) => Some(Num { bits: rustc_apfloat::Float::to_bits(d) as u64 }),
        Err(_) => None,
    }
}

} // verus!
