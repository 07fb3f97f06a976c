//! The equation tree, its exact value and its evaluation.

use vstd::prelude::*;
use crate::decimal::{
    lemma_pow10_positive, lemma_product_bounded, magnitude, pow10_exec, Decimal, DecimalView,
    Fraction, Ratio,
};
use crate::equation::EvalError;

verus! {

/// The operator of a binary node.
#[derive(Clone, Copy, Debug, PartialEq, Eq, Structural)]
pub enum DoubleOperator {
    Add,
    Subtract,
    Multiply,
    Divide,
}

impl DoubleOperator {
    /// The operator at an index from zero to three: addition, subtraction,
    /// multiplication, division.
    pub fn from_index(index: i32) -> (r: DoubleOperator)
        requires
            0 <= index < 4,
        ensures
            index == 0 ==> r == DoubleOperator::Add,
            index == 1 ==> r == DoubleOperator::Subtract,
            index == 2 ==> r == DoubleOperator::Multiply,
            index == 3 ==> r == DoubleOperator::Divide,
    {
        if index == 0 {
            DoubleOperator::Add
        } else if index == 1 {
            DoubleOperator::Subtract
        } else if index == 2 {
            DoubleOperator::Multiply
        } else {
            DoubleOperator::Divide
        }
    }

    /// The result of the operator on two fractions; nothing for a division
    /// by zero.
    pub open spec fn apply(self, left: Ratio, right: Ratio) -> Option<Ratio> {
        match self {
            DoubleOperator::Add => Some(left.plus(right)),
            DoubleOperator::Subtract => Some(left.minus(right)),
            DoubleOperator::Multiply => Some(left.times(right)),
            DoubleOperator::Divide => if right.num == 0 {
                None
            } else {
                Some(left.over(right))
            },
        }
    }
}

/// The product of two integers, or nothing where it leaves 128 bits.
fn product(x: i128, y: i128) -> (r: Option<i128>)
    ensures
        r matches Some(p) ==> p == x * y,
        r is None ==> magnitude(x * y) > i128::MAX,
{
    x.checked_mul(y)
}

/// The sum of two integers, or nothing where it leaves 128 bits.
fn sum(x: i128, y: i128) -> (r: Option<i128>)
    ensures
        r matches Some(p) ==> p == x + y,
        r is None ==> magnitude(x + y) > i128::MAX,
{
    x.checked_add(y)
}

/// The difference of two integers, or nothing where it leaves 128 bits.
fn difference(x: i128, y: i128) -> (r: Option<i128>)
    ensures
        r matches Some(p) ==> p == x - y,
        r is None ==> magnitude(x - y) > i128::MAX,
{
    x.checked_sub(y)
}

/// The four products that the operators form are bounded by the product of
/// bounds on the operands' sizes.
pub proof fn lemma_products_bounded(left: Ratio, right: Ratio, a: nat, b: nat)
    requires
        left.size() <= a,
        right.size() <= b,
    ensures
        magnitude(left.num * right.den) <= a * b,
        magnitude(right.num * left.den) <= a * b,
        magnitude(left.den * right.num) <= a * b,
        magnitude(left.num * right.num) <= a * b,
        magnitude(left.den * right.den) <= a * b,
        2 * a * b == 2 * (a * b),
{
    lemma_product_bounded(left.num, right.den, a, b);
    lemma_product_bounded(right.num, left.den, b, a);
    lemma_product_bounded(left.num, right.num, a, b);
    lemma_product_bounded(left.den, right.den, a, b);
    assert(b * a == a * b) by (nonlinear_arith);
    assert(2 * a * b == 2 * (a * b)) by (nonlinear_arith);
    assert(right.num * left.den == left.den * right.num) by (nonlinear_arith);
}

/// The result of an operator on fractions with positive denominators keeps a
/// positive denominator and is bounded by twice the product of bounds on the
/// operands.
pub proof fn lemma_apply_bounded(op: DoubleOperator, left: Ratio, right: Ratio, a: nat, b: nat)
    requires
        left.den > 0,
        right.den > 0,
        left.size() <= a,
        right.size() <= b,
    ensures
        op.apply(left, right) matches Some(v) ==> v.den > 0 && v.size() <= 2 * a * b,
{
    lemma_products_bounded(left, right, a, b);
    assert(left.den * right.den > 0) by (nonlinear_arith)
        requires
            left.den > 0,
            right.den > 0,
    ;
    if op == DoubleOperator::Divide && right.num != 0 {
        if right.num > 0 {
            assert(left.den * right.num > 0) by (nonlinear_arith)
                requires
                    left.den > 0,
                    right.num > 0,
            ;
        } else {
            assert(left.den * right.num < 0) by (nonlinear_arith)
                requires
                    left.den > 0,
                    right.num < 0,
            ;
        }
    }
}

impl DoubleOperator {
    /// Applies the operator to two exact fractions.
    ///
    /// Fails with `DivisionByZero` only where the result is undefined, and
    /// with `Overflow` only where twice the product of the operands' sizes
    /// exceeds 128 bits.
    pub fn calc(&self, left: Fraction, right: Fraction) -> (r: Result<Fraction, EvalError>)
        ensures
            r matches Ok(f) ==> self.apply(left@, right@) == Some(f@),
            r matches Err(e) ==> (e == EvalError::DivisionByZero ==> self.apply(left@, right@) is None),
            r matches Err(e) ==> (e == EvalError::Overflow ==> 2 * left@.size() * right@.size()
                > i128::MAX),
    {
        proof {
            lemma_products_bounded(left@, right@, left@.size(), right@.size());
        }
        let ln: i128 = left.num();
        let ld: i128 = left.den();
        let rn: i128 = right.num();
        let rd: i128 = right.den();
        match self {
            DoubleOperator::Add => {
                let (a, b, d) = match (product(ln, rd), product(rn, ld), product(ld, rd)) {
                    (Some(a), Some(b), Some(d)) => (a, b, d),
                    _ => { return Err(EvalError::Overflow); },
                };
                match sum(a, b) {
                    Some(n) => Ok(Fraction::new(n, d)),
                    None => Err(EvalError::Overflow),
                }
            },
            DoubleOperator::Subtract => {
                let (a, b, d) = match (product(ln, rd), product(rn, ld), product(ld, rd)) {
                    (Some(a), Some(b), Some(d)) => (a, b, d),
                    _ => { return Err(EvalError::Overflow); },
                };
                match difference(a, b) {
                    Some(n) => Ok(Fraction::new(n, d)),
                    None => Err(EvalError::Overflow),
                }
            },
            DoubleOperator::Multiply => {
                match (product(ln, rn), product(ld, rd)) {
                    (Some(n), Some(d)) => Ok(Fraction::new(n, d)),
                    _ => Err(EvalError::Overflow),
                }
            },
            DoubleOperator::Divide => {
                if rn == 0 {
                    return Err(EvalError::DivisionByZero);
                }
                let (n, d) = match (product(ln, rd), product(ld, rn)) {
                    (Some(n), Some(d)) => (n, d),
                    _ => { return Err(EvalError::Overflow); },
                };
                if rn > 0 {
                    Ok(Fraction::new(n, d))
                } else {
                    match (difference(0, n), difference(0, d)) {
                        (Some(n), Some(d)) => Ok(Fraction::new(n, d)),
                        _ => Err(EvalError::Overflow),
                    }
                }
            },
        }
    }
}

/// An equation: a decimal leaf, or an operator over two owned subtrees.
#[derive(Debug, PartialEq, Eq)]
pub enum EquationTree {
    Leaf(Decimal),
    BinaryNode(DoubleOperator, Box<EquationTree>, Box<EquationTree>),
}

impl EquationTree {
    /// The exact value of the tree, reduced in post-order; nothing where a
    /// divisor subtree has the value zero.
    pub open spec fn value(self) -> Option<Ratio>
        decreases self,
    {
        match self {
            EquationTree::Leaf(d) => Some(d@.ratio()),
            EquationTree::BinaryNode(op, left, right) => match (left.value(), right.value()) {
                (Some(l), Some(r)) => op.apply(l, r),
                _ => None,
            },
        }
    }

    /// A bound on numerator and denominator of the value, as the unreduced
    /// fraction grows from the leaves upward.
    pub open spec fn bound(self) -> nat
        decreases self,
    {
        match self {
            EquationTree::Leaf(d) => d@.ratio().size(),
            EquationTree::BinaryNode(_, left, right) => 2 * left.bound() * right.bound(),
        }
    }

    /// Whether the exact fraction of the tree is sure to fit in 128 bits.
    pub open spec fn in_range(self) -> bool {
        self.bound() <= i128::MAX
    }

    /// The number of edges on the longest path from the root to a leaf.
    pub open spec fn height(self) -> nat
        decreases self,
    {
        match self {
            EquationTree::Leaf(_) => 0,
            EquationTree::BinaryNode(_, left, right) => if left.height() >= right.height() {
                left.height() + 1
            } else {
                right.height() + 1
            },
        }
    }

    /// Whether every leaf is exactly `depth` edges from the root.
    pub open spec fn perfect(self, depth: nat) -> bool
        decreases self,
    {
        match self {
            EquationTree::Leaf(_) => depth == 0,
            EquationTree::BinaryNode(_, left, right) => {
                &&& depth > 0
                &&& left.perfect((depth - 1) as nat)
                &&& right.perfect((depth - 1) as nat)
            },
        }
    }

    /// Whether the tree has a value that differs from `candidate` by less
    /// than one thousandth.
    pub open spec fn close_to(self, candidate: DecimalView) -> bool {
        close(self.value(), candidate)
    }

    /// Whether the comparison with `candidate` is sure to fit in 128 bits.
    pub open spec fn comparable(self, candidate: DecimalView) -> bool {
        comparable(self.bound(), candidate)
    }
}

impl EquationTree {
    /// A defined value has a positive denominator and lies within the bound.
    pub proof fn lemma_value_bounded(self)
        ensures
            self.bound() >= 1,
            self.value() matches Some(v) ==> v.den > 0 && v.size() <= self.bound(),
        decreases self,
    {
        match self {
            EquationTree::Leaf(d) => {
                lemma_pow10_positive(d@.scale);
            },
            EquationTree::BinaryNode(op, left, right) => {
                left.lemma_value_bounded();
                right.lemma_value_bounded();
                assert(2 * left.bound() * right.bound() >= 1) by (nonlinear_arith)
                    requires
                        left.bound() >= 1,
                        right.bound() >= 1,
                ;
                if let (Some(l), Some(r)) = (left.value(), right.value()) {
                    lemma_apply_bounded(op, l, r, left.bound(), right.bound());
                }
            },
        }
    }

    /// A subtree's bound never exceeds that of the tree above it.
    pub proof fn lemma_bound_of_children(self)
        ensures
            self matches EquationTree::BinaryNode(_, left, right) ==> left.bound() <= self.bound()
                && right.bound() <= self.bound(),
    {
        if let EquationTree::BinaryNode(_, left, right) = self {
            left.lemma_value_bounded();
            right.lemma_value_bounded();
            assert(left.bound() <= 2 * left.bound() * right.bound() && right.bound() <= 2
                * left.bound() * right.bound()) by (nonlinear_arith)
                requires
                    left.bound() >= 1,
                    right.bound() >= 1,
            ;
        }
    }
}

/// Computes the bound of a tree, or nothing where the tree is not in range.
pub fn measure(tree: &EquationTree) -> (r: Option<u128>)
    ensures
        r is Some <==> tree.in_range(),
        r matches Some(b) ==> b == tree.bound(),
    decreases tree,
{
    proof {
        tree.lemma_value_bounded();
        tree.lemma_bound_of_children();
    }
    match tree {
        EquationTree::Leaf(d) => {
            let digits: i64 = d.digits();
            let size: u128 = if digits >= 0 {
                digits as u128
            } else {
                (-(digits as i128)) as u128
            };
            let unit: u128 = pow10_exec(d.scale()) as u128;
            if size >= unit {
                Some(size)
            } else {
                Some(unit)
            }
        },
        EquationTree::BinaryNode(_, left, right) => {
            let l: u128 = match measure(left) {
                Some(l) => l,
                None => { return None; },
            };
            let r: u128 = match measure(right) {
                Some(r) => r,
                None => { return None; },
            };
            proof {
                left.lemma_value_bounded();
                right.lemma_value_bounded();
                assert(2 * l * r == 2 * (l * r)) by (nonlinear_arith);
            }
            let both: u128 = match l.checked_mul(r) {
                Some(both) => both,
                None => { return None; },
            };
            if both > 85_070_591_730_234_615_865_843_651_857_942_052_863 {
                None
            } else {
                Some(2 * both)
            }
        },
    }
}

/// Evaluates a tree to its exact value, operands before operator.
///
/// The result is the value wherever the tree is in range and the value is
/// defined; `DivisionByZero` is returned only for a tree without a value, and
/// `Overflow` only for a tree that is not in range.
pub fn evaluate(tree: &EquationTree) -> (r: Result<Fraction, EvalError>)
    ensures
        r matches Ok(f) ==> tree.value() == Some(f@),
        r matches Err(e) ==> (e == EvalError::DivisionByZero ==> tree.value() is None),
        r matches Err(e) ==> (e == EvalError::Overflow ==> !tree.in_range()),
        tree.in_range() ==> (r is Ok <==> tree.value() is Some),
    decreases tree,
{
    proof {
        tree.lemma_value_bounded();
        tree.lemma_bound_of_children();
    }
    match tree {
        EquationTree::Leaf(d) => Ok(d.to_fraction()),
        EquationTree::BinaryNode(op, left, right) => {
            let l: Fraction = match evaluate(left) {
                Ok(l) => l,
                Err(e) => { return Err(e); },
            };
            let r: Fraction = match evaluate(right) {
                Ok(r) => r,
                Err(e) => { return Err(e); },
            };
            proof {
                left.lemma_value_bounded();
                right.lemma_value_bounded();
                assert(2 * l@.size() * r@.size() <= 2 * left.bound() * right.bound())
                    by (nonlinear_arith)
                    requires
                        l@.size() <= left.bound(),
                        r@.size() <= right.bound(),
                ;
            }
            op.calc(l, r)
        },
    }
}

/// Whether a fraction with a positive denominator differs from `candidate`
/// by less than one thousandth.
pub open spec fn near(value: Ratio, candidate: DecimalView) -> bool {
    1000 * value.distance(candidate.ratio()).num < value.distance(candidate.ratio()).den
}

/// Whether a value, where there is one, lies near `candidate`.
pub open spec fn close(value: Option<Ratio>, candidate: DecimalView) -> bool {
    value matches Some(v) && near(v, candidate)
}

/// Whether comparing a value within `bound` to `candidate` is sure to fit in
/// 128 bits.
pub open spec fn comparable(bound: nat, candidate: DecimalView) -> bool {
    2000 * (bound * candidate.ratio().size()) <= i128::MAX
}

/// Decides from the outcome of an evaluation whether a candidate answer is
/// accepted: whether it lies within one thousandth of the value.
///
/// No candidate is accepted unless it is that close, and none where the
/// evaluation gave no value. Wherever the comparison fits in 128 bits the
/// answer is exact both ways.
pub fn within_tolerance(outcome: Result<Fraction, EvalError>, candidate: &Decimal) -> (r: bool)
    ensures
        r ==> (outcome matches Ok(v) && near(v@, candidate@)),
        outcome matches Ok(v) ==> (comparable(v@.size(), candidate@) ==> (r <==> near(
            v@,
            candidate@,
        ))),
{
    let v: Fraction = match outcome {
        Ok(v) => v,
        Err(_) => { return false; },
    };
    let c: Fraction = candidate.to_fraction();
    let ghost big: nat = v@.size();
    let ghost small: nat = c@.size();
    proof {
        lemma_pow10_positive(candidate@.scale);
        lemma_products_bounded(v@, c@, big, small);
        assert(2 * (big * small) <= 2000 * (big * small)) by (nonlinear_arith);
    }
    let d: Fraction = match DoubleOperator::Subtract.calc(v, c) {
        Ok(d) => d,
        Err(_) => { return false; },
    };
    let n: i128 = d.num();
    let gap: i128 = if n >= 0 {
        n
    } else {
        match difference(0, n) {
            Some(g) => g,
            None => { return false; },
        }
    };
    match product(1000, gap) {
        Some(t) => t < d.den(),
        None => false,
    }
}

/// Grades a candidate answer against a tree: whether it lies within one
/// thousandth of the exact value of the tree.
///
/// A candidate is never accepted unless it is that close; wherever the
/// comparison fits in 128 bits the answer is exact both ways. A tree without
/// a finite value accepts no candidate.
pub fn compare_value(tree: &EquationTree, candidate: &Decimal) -> (r: bool)
    ensures
        r ==> tree.close_to(candidate@),
        tree.comparable(candidate@) ==> (r <==> tree.close_to(candidate@)),
{
    proof {
        tree.lemma_value_bounded();
        if tree.comparable(candidate@) {
            lemma_comparable_monotonic(tree.bound(), candidate@);
        }
    }
    within_tolerance(evaluate(tree), candidate)
}

/// A comparison that fits for a bound fits for every smaller size, and the
/// bound itself then fits in 128 bits.
pub proof fn lemma_comparable_monotonic(bound: nat, candidate: DecimalView)
    requires
        comparable(bound, candidate),
    ensures
        bound <= i128::MAX,
        forall|size: nat| size <= bound ==> #[trigger] comparable(size, candidate),
{
    let small: nat = candidate.ratio().size();
    lemma_pow10_positive(candidate.scale);
    assert(bound <= 2000 * (bound * small)) by (nonlinear_arith)
        requires
            small >= 1,
    ;
    assert forall|size: nat| size <= bound implies #[trigger] comparable(size, candidate) by {
        assert(2000 * (size * small) <= 2000 * (bound * small)) by (nonlinear_arith)
            requires
                size <= bound,
        ;
    }
}

} // verus!
