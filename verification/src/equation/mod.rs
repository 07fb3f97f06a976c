//! Equations: their trees, how they are built, evaluated and shown.

use vstd::prelude::*;
use crate::decimal::{Decimal, Fraction, Ratio};
use crate::equation::tree::{close, comparable, lemma_comparable_monotonic, within_tolerance};

pub mod factor;
pub mod medium;
pub mod render;
pub mod simple;
pub mod tree;

verus! {

/// Why an evaluation produced no number.
#[derive(Clone, Copy, Debug, PartialEq, Eq, Structural)]
pub enum EvalError {
    /// A divisor evaluated to zero, so the equation has no finite value.
    DivisionByZero,
    /// The exact fraction does not fit in 128 bits.
    Overflow,
}

/// An equation that can be evaluated and against which an answer can be
/// graded.
pub trait Equation {
    /// The exact value of the equation; nothing where it divides by zero.
    spec fn value(&self) -> Option<Ratio>;

    /// A bound on numerator and denominator of the value as it is computed.
    spec fn bound(&self) -> nat;

    /// Evaluates the equation exactly.
    ///
    /// `DivisionByZero` comes back only for an equation without a value, and
    /// `Overflow` only for one whose bound exceeds 128 bits.
    fn calc_value(&self) -> (r: Result<Fraction, EvalError>)
        ensures
            r matches Ok(f) ==> self.value() == Some(f@) && f@.size() <= self.bound(),
            r matches Err(e) ==> (e == EvalError::DivisionByZero ==> self.value() is None),
            r matches Err(e) ==> (e == EvalError::Overflow ==> self.bound() > i128::MAX),
    ;

    /// Grades a candidate answer: whether it lies within one thousandth of
    /// the value. This is the only comparison of values the library offers.
    fn compare_value(&self, candidate: &Decimal) -> (r: bool)
        ensures
            r ==> close(self.value(), candidate@),
            comparable(self.bound(), candidate@) ==> (r <==> close(self.value(), candidate@)),
    {
        proof {
            if comparable(self.bound(), candidate@) {
                lemma_comparable_monotonic(self.bound(), candidate@);
            }
        }
        within_tolerance(self.calc_value(), candidate)
    }
}

} // verus!
