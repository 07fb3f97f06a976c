//! Equations built backwards from the value they must have.
//!
//! Each level picks an operator and inverts it against the target: it finds
//! two operand values that the operator is meant to combine to the target,
//! and builds each operand the same way one level further down.

use vstd::prelude::*;
use crate::decimal::{
    lemma_add_back, lemma_divide_back, lemma_minus_ratio, lemma_plus_ratio, lemma_pow10_positive,
    lemma_same_minus, lemma_same_over, lemma_same_plus, lemma_same_transitive,
    lemma_subtract_back, lemma_times_ratio, magnitude, pow10, pow10_exec, Decimal, DecimalView,
    Fraction,
    Ratio, MAX_SCALE,
};
use crate::equation::render::render;
use crate::equation::tree::{comparable, evaluate, measure};
use crate::equation::{Equation, EvalError};
use crate::equation::factor::{
    factor_magnitudes, find_factor_pairs, is_signed_pair, lemma_factor_pairs_multiply,
    scaled_target,
};
use crate::equation::tree::{DoubleOperator, EquationTree};
use crate::random::{choose_pair, random_below};

verus! {

/// Whether a decimal is a filler value: a count of tenths from -50.0 up to,
/// but not including, 50.0.
pub open spec fn is_signed_tenth(d: DecimalView) -> bool {
    d.scale == 1 && -500 <= d.digits < 500
}

/// Whether a decimal is a divisor candidate for the given bound and
/// precision: a count of units of `10^-precision` in `-bound..bound`.
pub open spec fn is_small(d: DecimalView, bound: int, precision: nat) -> bool {
    d.scale == precision && -bound <= d.digits < bound
}

/// Whether `left` and `right` are operand targets that inverting `op`
/// against `target` can produce.
pub open spec fn inverts(
    op: DoubleOperator,
    target: DecimalView,
    left: DecimalView,
    right: DecimalView,
) -> bool {
    match op {
        DoubleOperator::Add => is_signed_tenth(left) && right == target.minus(left),
        DoubleOperator::Subtract => is_signed_tenth(left) && right == target.plus(left),
        DoubleOperator::Multiply => exists|i: int|
            0 <= i < factor_magnitudes(scaled_target(target, 1)).len() && is_signed_pair(
                target.digits < 0,
                #[trigger] factor_magnitudes(scaled_target(target, 1))[i],
                1,
                left,
                right,
            ),
        DoubleOperator::Divide => is_small(right, 50, 1) && right.digits != 0 && left
            == right.times(target),
    }
}

/// Whether `tree` can come from building `target` to `depth` levels: a leaf
/// holding the target at depth zero, otherwise an operator whose operands are
/// built one level lower from targets that invert it.
pub open spec fn derives(tree: EquationTree, target: DecimalView, depth: nat) -> bool
    decreases depth,
{
    if depth == 0 {
        tree matches EquationTree::Leaf(d) && d@ == target
    } else {
        tree matches EquationTree::BinaryNode(op, left, right) && exists|
            lt: DecimalView,
            rt: DecimalView,
        |
            #[trigger] inverts(op, target, lt, rt) && derives(*left, lt, (depth - 1) as nat)
                && derives(*right, rt, (depth - 1) as nat)
    }
}

/// Fifty to the power `n`: the factor by which one level can enlarge the
/// digits of a target.
pub open spec fn pow50(n: nat) -> nat
    decreases n,
{
    if n == 0 {
        1
    } else {
        50 * pow50((n - 1) as nat)
    }
}

/// The digits of a target at a scale of at least one, with room for a
/// filler value added at that scale.
pub open spec fn weight(target: DecimalView) -> nat {
    if target.scale == 0 {
        10 * magnitude(target.digits) + 500
    } else {
        magnitude(target.digits) + 500 * pow10((target.scale - 1) as nat)
    }
}

/// Whether every operand target down to `depth` levels is sure to fit a
/// decimal. Depth zero asks for nothing.
pub open spec fn buildable(target: DecimalView, depth: nat) -> bool {
    depth == 0 || (target.scale + depth <= MAX_SCALE && weight(target) * pow50(depth) <= i64::MAX)
}

/// One level of room is a factor of at least fifty.
proof fn lemma_room(target: DecimalView, depth: nat)
    requires
        depth >= 1,
        buildable(target, depth),
    ensures
        weight(target) >= 500,
        50 * weight(target) <= i64::MAX,
        forall|w: nat|
            w <= 50 * weight(target) ==> #[trigger] (w * pow50((depth - 1) as nat)) <= i64::MAX,
{
    let rest: nat = pow50((depth - 1) as nat);
    let big: nat = weight(target);
    lemma_pow50_positive((depth - 1) as nat);
    if target.scale > 0 {
        lemma_pow10_positive((target.scale - 1) as nat);
    }
    assert(big * pow50(depth) == (50 * big) * rest) by (nonlinear_arith)
        requires
            pow50(depth) == 50 * rest,
    ;
    assert(50 * big <= (50 * big) * rest) by (nonlinear_arith)
        requires
            rest >= 1,
    ;
    assert forall|w: nat| w <= 50 * big implies #[trigger] (w * rest) <= i64::MAX by {
        assert(w * rest <= (50 * big) * rest) by (nonlinear_arith)
            requires
                w <= 50 * big,
        ;
    }
}

/// Every power of fifty is at least one.
pub proof fn lemma_pow50_positive(n: nat)
    ensures
        pow50(n) >= 1,
    decreases n,
{
    if n > 0 {
        lemma_pow50_positive((n - 1) as nat);
    }
}

/// Adding a filler value to a buildable target, or taking it away, gives
/// decimals that are buildable one level lower.
pub proof fn lemma_filler_fits(target: DecimalView, left: DecimalView, depth: nat)
    requires
        depth >= 1,
        buildable(target, depth),
        is_signed_tenth(left),
    ensures
        target.minus(left).representable(),
        target.plus(left).representable(),
        buildable(target.minus(left), (depth - 1) as nat),
        buildable(target.plus(left), (depth - 1) as nat),
        buildable(left, (depth - 1) as nat),
{
    lemma_room(target, depth);
    let rest: nat = pow50((depth - 1) as nat);
    let big: nat = weight(target);
    assert(pow10(0) == 1);
    assert(pow10(1) == 10) by {
        reveal_with_fuel(pow10, 2);
    }
    assert(weight(left) <= 1000);
    assert(weight(left) * rest <= i64::MAX);
    if target.scale == 0 {
        assert(target.digits_at(1) == target.digits * 10);
        assert(left.digits_at(1) == left.digits) by (nonlinear_arith)
            requires
                left.digits_at(1) == left.digits * pow10(0),
                pow10(0) == 1,
        ;
        assert(weight(target.minus(left)) <= 2 * big);
        assert(weight(target.plus(left)) <= 2 * big);
    } else {
        let unit: nat = pow10((target.scale - 1) as nat);
        lemma_pow10_positive((target.scale - 1) as nat);
        assert(target.digits_at(target.scale) == target.digits) by (nonlinear_arith)
            requires
                target.digits_at(target.scale) == target.digits * pow10(0),
                pow10(0) == 1,
        ;
        assert(-500 * unit <= left.digits * unit <= 500 * unit) by (nonlinear_arith)
            requires
                -500 <= left.digits < 500,
                unit >= 1,
        ;
        assert(weight(target.minus(left)) <= 2 * big);
        assert(weight(target.plus(left)) <= 2 * big);
    }
    assert(weight(target.minus(left)) * rest <= i64::MAX);
    assert(weight(target.plus(left)) * rest <= i64::MAX);
}

/// Multiplying a buildable target by a divisor candidate gives a decimal
/// that is buildable one level lower, as is the divisor.
pub proof fn lemma_divisor_fits(target: DecimalView, right: DecimalView, depth: nat)
    requires
        depth >= 1,
        buildable(target, depth),
        is_small(right, 50, 1),
    ensures
        right.times(target).representable(),
        buildable(right.times(target), (depth - 1) as nat),
        buildable(right, (depth - 1) as nat),
{
    lemma_room(target, depth);
    let rest: nat = pow50((depth - 1) as nat);
    let big: nat = weight(target);
    let size: nat = magnitude(target.digits);
    let product: int = right.digits * target.digits;
    assert(pow10(0) == 1);
    assert(weight(right) <= 550);
    assert(weight(right) * rest <= i64::MAX);
    assert(magnitude(product) <= 50 * size) by (nonlinear_arith)
        requires
            -50 <= right.digits < 50,
            size == magnitude(target.digits),
            product == right.digits * target.digits,
    ;
    if target.scale == 0 {
        assert(weight(right.times(target)) == magnitude(product) + 500 * pow10(0));
    } else {
        let unit: nat = pow10((target.scale - 1) as nat);
        lemma_pow10_positive((target.scale - 1) as nat);
        assert(pow10(target.scale) == 10 * unit);
        assert(weight(right.times(target)) == magnitude(product) + 500 * pow10(target.scale));
    }
    assert(weight(right.times(target)) <= 50 * big);
    assert(weight(right.times(target)) * rest <= i64::MAX);
}

/// The scaled target of a buildable target fits a decimal.
pub proof fn lemma_scaled_fits(target: DecimalView, depth: nat)
    requires
        depth >= 1,
        buildable(target, depth),
    ensures
        scaled_target(target, 1) <= i64::MAX,
        scaled_target(target, 1) + 500 <= 50 * weight(target),
{
    lemma_room(target, depth);
    let size: nat = magnitude(target.digits);
    let scaled: nat = scaled_target(target, 1);
    lemma_pow10_positive(target.scale);
    assert(pow10(1) == 10) by {
        reveal_with_fuel(pow10, 2);
    }
    let top: nat = 2 * (size * 10) + pow10(target.scale);
    let den: nat = 2 * pow10(target.scale);
    assert(scaled == top / den);
    assert(top / den <= top) by (nonlinear_arith)
        requires
            den >= 1,
    ;
    if target.scale > 0 {
        lemma_pow10_positive((target.scale - 1) as nat);
    }
}

/// Both members of a signed factor pair of a buildable target are buildable
/// one level lower.
pub proof fn lemma_factors_fit(
    target: DecimalView,
    depth: nat,
    i: int,
    left: DecimalView,
    right: DecimalView,
)
    requires
        depth >= 1,
        buildable(target, depth),
        0 <= i < factor_magnitudes(scaled_target(target, 1)).len(),
        is_signed_pair(
            target.digits < 0,
            factor_magnitudes(scaled_target(target, 1))[i],
            1,
            left,
            right,
        ),
    ensures
        buildable(left, (depth - 1) as nat),
        buildable(right, (depth - 1) as nat),
        left.representable(),
        right.representable(),
{
    lemma_room(target, depth);
    lemma_scaled_fits(target, depth);
    let rest: nat = pow50((depth - 1) as nat);
    let scaled: nat = scaled_target(target, 1);
    lemma_factor_pairs_multiply(scaled, scaled + 1, i);
    let pair = factor_magnitudes(scaled)[i];
    assert(pair.1 <= scaled) by (nonlinear_arith)
        requires
            pair.0 >= 1,
            pair.0 * pair.1 == scaled,
    ;
    assert(pow10(0) == 1);
    assert(weight(left) <= scaled + 500);
    assert(weight(right) <= scaled + 500);
    assert(weight(left) * rest <= i64::MAX);
    assert(weight(right) * rest <= i64::MAX);
}

/// The filler value of a draw from `0..1000`: the draw less 500, in tenths.
pub fn signed_tenth(draw: i32) -> (r: Decimal)
    requires
        0 <= draw < 1000,
    ensures
        r@ == (DecimalView { digits: draw - 500, scale: 1 }),
{
    Decimal::from_tenths((draw - 500) as i64)
}

/// Draws a filler value: a multiple of 0.1 from -50.0 up to, but not
/// including, 50.0.
pub fn sample_signed_tenth() -> (r: Decimal)
    ensures
        is_signed_tenth(r@),
{
    signed_tenth(random_below(0, 1000))
}

/// Draws a divisor candidate: a count of units of `10^-precision` from
/// `-bound` up to, but not including, `bound`. Zero can be drawn.
pub fn sample_small_nonzero(bound: i32, precision: u32) -> (r: Decimal)
    requires
        bound > 0,
        precision <= MAX_SCALE,
    ensures
        is_small(r@, bound as int, precision as nat),
{
    let draw: i32 = random_below(-bound, bound);
    Decimal::new(draw as i64, precision).unwrap()
}

/// Inverts an addition: the left operand is the filler value, the right one
/// what is missing to the target. Nothing where a decimal cannot hold it.
pub fn invert_add(target: &Decimal, left: &Decimal) -> (r: Option<(Decimal, Decimal)>)
    ensures
        r is Some <==> target@.minus(left@).representable(),
        r matches Some(p) ==> p.0 == *left && p.1@ == target@.minus(left@),
{
    match target.checked_minus(left) {
        Some(right) => Some((*left, right)),
        None => None,
    }
}

/// Inverts a subtraction: the left operand is the filler value, the right
/// one the target increased by it. Nothing where a decimal cannot hold it.
pub fn invert_subtract(target: &Decimal, left: &Decimal) -> (r: Option<(Decimal, Decimal)>)
    ensures
        r is Some <==> target@.plus(left@).representable(),
        r matches Some(p) ==> p.0 == *left && p.1@ == target@.plus(left@),
{
    match target.checked_plus(left) {
        Some(right) => Some((*left, right)),
        None => None,
    }
}

/// Inverts a division: the right operand is the divisor, the left one the
/// divisor times the target. Nothing for a divisor of zero, or where a
/// decimal cannot hold the product.
pub fn invert_divide(target: &Decimal, right: &Decimal) -> (r: Option<(Decimal, Decimal)>)
    ensures
        r is Some <==> right@.digits != 0 && right@.times(target@).representable(),
        r matches Some(p) ==> p.0@ == right@.times(target@) && p.1 == *right,
{
    if right.digits() == 0 {
        None
    } else {
        match right.checked_times(target) {
            Some(left) => Some((left, *right)),
            None => None,
        }
    }
}

/// Inverts a multiplication: one of the factor pairs of the target at one
/// decimal digit, picked at random. Nothing for a target without factor
/// pairs, which is one whose scaled magnitude is zero.
pub fn invert_multiply(target: &Decimal) -> (r: Option<(Decimal, Decimal)>)
    requires
        scaled_target(target@, 1) <= i64::MAX,
    ensures
        r is None <==> scaled_target(target@, 1) == 0,
        r matches Some(p) ==> inverts(DoubleOperator::Multiply, target@, p.0@, p.1@),
{
    let pairs: Vec<(Decimal, Decimal)> = find_factor_pairs(target, 1);
    let picked: Option<(Decimal, Decimal)> = choose_pair(&pairs);
    proof {
        if let Some(pair) = picked {
            let i: int = choose|i: int| 0 <= i < pairs@.len() && pairs@[i] == pair;
            assert(is_signed_pair(
                target@.digits < 0,
                factor_magnitudes(scaled_target(target@, 1))[i],
                1,
                pair.0@,
                pair.1@,
            ));
        }
    }
    picked
}

/// Splits a target by addition with a fresh filler value.
fn split_by_add(target: &Decimal, depth: u32) -> (r: (DoubleOperator, Decimal, Decimal))
    requires
        depth >= 1,
        buildable(target@, depth as nat),
    ensures
        r.0 == DoubleOperator::Add,
        inverts(r.0, target@, r.1@, r.2@),
        buildable(r.1@, (depth - 1) as nat),
        buildable(r.2@, (depth - 1) as nat),
{
    let left: Decimal = sample_signed_tenth();
    proof {
        lemma_filler_fits(target@, left@, depth as nat);
    }
    let pair: (Decimal, Decimal) = invert_add(target, &left).unwrap();
    (DoubleOperator::Add, pair.0, pair.1)
}

/// Inverts `op` against the target with fresh draws. An operator whose
/// inversion fails, a multiplication without factor pairs or a division
/// whose divisor came out as zero, gives way to an addition.
fn split(target: &Decimal, op: DoubleOperator, depth: u32) -> (r: (
    DoubleOperator,
    Decimal,
    Decimal,
))
    requires
        depth >= 1,
        buildable(target@, depth as nat),
    ensures
        r.0 == op || r.0 == DoubleOperator::Add,
        inverts(r.0, target@, r.1@, r.2@),
        buildable(r.1@, (depth - 1) as nat),
        buildable(r.2@, (depth - 1) as nat),
{
    match op {
        DoubleOperator::Add => split_by_add(target, depth),
        DoubleOperator::Subtract => {
            let left: Decimal = sample_signed_tenth();
            proof {
                lemma_filler_fits(target@, left@, depth as nat);
            }
            let pair: (Decimal, Decimal) = invert_subtract(target, &left).unwrap();
            (DoubleOperator::Subtract, pair.0, pair.1)
        },
        DoubleOperator::Multiply => {
            proof {
                lemma_scaled_fits(target@, depth as nat);
            }
            match invert_multiply(target) {
                Some(pair) => {
                    proof {
                        let i: int = choose|i: int|
                            0 <= i < factor_magnitudes(scaled_target(target@, 1)).len()
                                && is_signed_pair(
                                target@.digits < 0,
                                #[trigger] factor_magnitudes(scaled_target(target@, 1))[i],
                                1,
                                pair.0@,
                                pair.1@,
                            );
                        lemma_factors_fit(target@, depth as nat, i, pair.0@, pair.1@);
                    }
                    (DoubleOperator::Multiply, pair.0, pair.1)
                },
                None => split_by_add(target, depth),
            }
        },
        DoubleOperator::Divide => {
            let right: Decimal = sample_small_nonzero(50, 1);
            proof {
                lemma_divisor_fits(target@, right@, depth as nat);
            }
            match invert_divide(target, &right) {
                Some(pair) => (DoubleOperator::Divide, pair.0, pair.1),
                None => split_by_add(target, depth),
            }
        },
    }
}

/// Decides whether a target is buildable to `depth` levels.
pub fn can_build(target: &Decimal, depth: u32) -> (r: bool)
    ensures
        r == buildable(target@, depth as nat),
{
    let scale: u32 = target.scale();
    if depth == 0 {
        return true;
    }
    if depth > MAX_SCALE || scale > MAX_SCALE - depth {
        return false;
    }
    let digits: i64 = target.digits();
    let size: u128 = if digits >= 0 {
        digits as u128
    } else {
        (-(digits as i128)) as u128
    };
    let heavy: u128 = if scale == 0 {
        10 * size + 500
    } else {
        size + 500 * (pow10_exec(scale - 1) as u128)
    };
    proof {
        lemma_pow50_positive(depth as nat);
        assert(heavy * pow50(depth as nat) >= heavy) by (nonlinear_arith)
            requires
                pow50(depth as nat) >= 1,
        ;
        assert(heavy * pow50(0) == heavy) by (nonlinear_arith)
            requires
                pow50(0) == 1,
        ;
    }
    if heavy > 9_223_372_036_854_775_807 {
        return false;
    }
    let mut grown: u128 = heavy;
    let mut level: u32 = 0;
    while level < depth
        invariant
            level <= depth,
            heavy == weight(target@),
            grown == heavy * pow50(level as nat),
            grown <= i64::MAX,
        decreases depth - level,
    {
        if grown > 9_223_372_036_854_775_807 / 50 {
            proof {
                lemma_pow50_grows((level + 1) as nat, depth as nat);
                assert(heavy * pow50((level + 1) as nat) == grown * 50) by (nonlinear_arith)
                    requires
                        grown == heavy * pow50(level as nat),
                        pow50((level + 1) as nat) == 50 * pow50(level as nat),
                ;
                assert(heavy * pow50((level + 1) as nat) <= heavy * pow50(depth as nat))
                    by (nonlinear_arith)
                    requires
                        pow50((level + 1) as nat) <= pow50(depth as nat),
                ;
            }
            return false;
        }
        proof {
            assert(heavy * pow50((level + 1) as nat) == grown * 50) by (nonlinear_arith)
                requires
                    grown == heavy * pow50(level as nat),
                    pow50((level + 1) as nat) == 50 * pow50(level as nat),
            ;
        }
        grown = grown * 50;
        level = level + 1;
    }
    true
}

/// Powers of fifty grow with the exponent.
pub proof fn lemma_pow50_grows(a: nat, b: nat)
    requires
        a <= b,
    ensures
        pow50(a) <= pow50(b),
    decreases b,
{
    if a < b {
        lemma_pow50_grows(a, (b - 1) as nat);
        lemma_pow50_positive((b - 1) as nat);
    }
}

/// Builds an equation of `depth` operator levels for the target, or nothing
/// where the target is not buildable to that depth.
pub fn try_build(target: &Decimal, depth: u32) -> (r: Option<EquationTree>)
    ensures
        r is Some <==> buildable(target@, depth as nat),
        r matches Some(tree) ==> derives(tree, target@, depth as nat) && tree.perfect(depth as nat),
{
    if can_build(target, depth) {
        Some(build(target, depth))
    } else {
        None
    }
}

/// Builds an equation of `depth` operator levels for the target.
///
/// Depth zero gives the leaf that holds the target. Any other depth picks an
/// operator at random, inverts it against the target and builds both
/// operands one level lower, so every leaf ends up `depth` edges below the
/// root.
pub fn build(target: &Decimal, depth: u32) -> (tree: EquationTree)
    requires
        buildable(target@, depth as nat),
    ensures
        derives(tree, target@, depth as nat),
        tree.perfect(depth as nat),
        depth == 0 ==> tree == EquationTree::Leaf(*target),
    decreases depth,
{
    if depth == 0 {
        EquationTree::Leaf(*target)
    } else {
        let op: DoubleOperator = DoubleOperator::from_index(random_below(0, 4));
        let parts: (DoubleOperator, Decimal, Decimal) = split(target, op, depth);
        let left: EquationTree = build(&parts.1, depth - 1);
        let right: EquationTree = build(&parts.2, depth - 1);
        proof {
            assert(inverts(parts.0, target@, parts.1@, parts.2@) && derives(
                left,
                parts.1@,
                (depth - 1) as nat,
            ) && derives(right, parts.2@, (depth - 1) as nat));
        }
        EquationTree::BinaryNode(parts.0, Box::new(left), Box::new(right))
    }
}

/// The number of times a tree that cannot be asked is built anew before
/// additions alone are used.
pub const ATTEMPTS: u32 = 8;

/// The largest bound of a tree that is asked: the bound that three levels of
/// additions over a filler value can reach.
pub const BOUND_LIMIT: u128 = 24_000_000_000_000_000_000_000_000;

/// The largest size of a candidate that is sure to be graded exactly against
/// a tree within [`BOUND_LIMIT`].
pub const CANDIDATE_LIMIT: u128 = 3_000_000_000;

impl EquationTree {
    /// Whether the tree holds no operator but addition.
    pub open spec fn sums_only(self) -> bool
        decreases self,
    {
        match self {
            EquationTree::Leaf(_) => true,
            EquationTree::BinaryNode(op, left, right) => {
                &&& op == DoubleOperator::Add
                &&& left.sums_only()
                &&& right.sums_only()
            },
        }
    }

    /// A tree of additions alone is one of additions and divisions.
    pub proof fn lemma_sums_are_sums_and_quotients(self)
        requires
            self.sums_only(),
        ensures
            self.sums_and_quotients(),
        decreases self,
    {
        if let EquationTree::BinaryNode(_, left, right) = self {
            left.lemma_sums_are_sums_and_quotients();
            right.lemma_sums_are_sums_and_quotients();
        }
    }
}

/// The bound that `depth` levels of additions can reach over a target in
/// tenths whose digits are within `cap`: the left operand of every level is
/// a filler value, the right one exceeds the target by no more than one.
pub open spec fn sum_tower(cap: nat, depth: nat) -> nat
    decreases depth,
{
    if depth == 0 {
        cap
    } else {
        2 * sum_tower(500, (depth - 1) as nat) * sum_tower(cap + 500, (depth - 1) as nat)
    }
}

/// The tower of sums grows with the cap.
pub proof fn lemma_sum_tower_grows(small: nat, large: nat, depth: nat)
    requires
        small <= large,
    ensures
        sum_tower(small, depth) <= sum_tower(large, depth),
    decreases depth,
{
    if depth > 0 {
        let below: nat = (depth - 1) as nat;
        lemma_sum_tower_grows(small + 500, large + 500, below);
        assert(2 * sum_tower(500, below) * sum_tower(small + 500, below) <= 2 * sum_tower(
            500,
            below,
        ) * sum_tower(large + 500, below)) by (nonlinear_arith)
            requires
                sum_tower(small + 500, below) <= sum_tower(large + 500, below),
        ;
    }
}

/// Up to three levels of additions over a filler value stay within the
/// limit.
pub proof fn lemma_sum_tower_limit(depth: nat)
    requires
        depth <= 3,
    ensures
        sum_tower(500, depth) <= BOUND_LIMIT,
{
    assert(sum_tower(500, 0) == 500 && sum_tower(1000, 0) == 1000 && sum_tower(1500, 0) == 1500
        && sum_tower(2000, 0) == 2000);
    assert(sum_tower(500, 1) == 1_000_000) by {
        assert(2 * 500 * 1000 == 1_000_000) by (nonlinear_arith);
    }
    assert(sum_tower(1000, 1) == 1_500_000) by {
        assert(2 * 500 * 1500 == 1_500_000) by (nonlinear_arith);
    }
    assert(sum_tower(1500, 1) == 2_000_000) by {
        assert(2 * 500 * 2000 == 2_000_000) by (nonlinear_arith);
    }
    assert(sum_tower(500, 2) == 3_000_000_000_000) by {
        assert(2 * 1_000_000 * 1_500_000 == 3_000_000_000_000) by (nonlinear_arith);
    }
    assert(sum_tower(1000, 2) == 4_000_000_000_000) by {
        assert(2 * 1_000_000 * 2_000_000 == 4_000_000_000_000) by (nonlinear_arith);
    }
    assert(sum_tower(500, 3) == 24_000_000_000_000_000_000_000_000) by {
        assert(2 * 3_000_000_000_000 * 4_000_000_000_000 == 24_000_000_000_000_000_000_000_000)
            by (nonlinear_arith);
    }
}

/// A tree within the limit can be graded exactly against every candidate
/// within the limit for candidates.
pub proof fn lemma_limits_compare(bound: nat, candidate: DecimalView)
    requires
        bound <= BOUND_LIMIT,
        candidate.ratio().size() <= CANDIDATE_LIMIT,
    ensures
        comparable(bound, candidate),
{
    let size: nat = candidate.ratio().size();
    assert(2000 * (bound * size) <= 2000 * (24_000_000_000_000_000_000_000_000 * 3_000_000_000))
        by (nonlinear_arith)
        requires
            bound <= 24_000_000_000_000_000_000_000_000,
            size <= 3_000_000_000,
    ;
}

/// Builds an equation of `depth` levels of additions for a target in
/// tenths. Its value is the target, and its bound is within the tower of
/// sums over the digits of the target.
pub fn build_sums(target: &Decimal, depth: u32) -> (tree: EquationTree)
    requires
        target@.scale == 1,
        magnitude(target@.digits) + 500 * depth <= 2000,
    ensures
        derives(tree, target@, depth as nat),
        tree.perfect(depth as nat),
        tree.sums_only(),
        tree.bound() <= sum_tower(target@.ratio().size(), depth as nat),
    decreases depth,
{
    proof {
        assert(pow10(0) == 1);
        assert(pow10(1) == 10) by {
            reveal_with_fuel(pow10, 2);
        }
    }
    if depth == 0 {
        EquationTree::Leaf(*target)
    } else {
        let filler: Decimal = sample_signed_tenth();
        proof {
            assert(target@.digits_at(1) == target@.digits && filler@.digits_at(1) == filler@.digits)
                by (nonlinear_arith)
                requires
                    target@.digits_at(1) == target@.digits * pow10(0),
                    filler@.digits_at(1) == filler@.digits * pow10(0),
                    pow10(0) == 1,
            ;
        }
        let parts: (Decimal, Decimal) = invert_add(target, &filler).unwrap();
        let left: EquationTree = build_sums(&parts.0, depth - 1);
        let right: EquationTree = build_sums(&parts.1, depth - 1);
        proof {
            assert(inverts(DoubleOperator::Add, target@, parts.0@, parts.1@) && derives(
                left,
                parts.0@,
                (depth - 1) as nat,
            ) && derives(right, parts.1@, (depth - 1) as nat));
            let below: nat = (depth - 1) as nat;
            let cap: nat = target@.ratio().size();
            lemma_sum_tower_grows(parts.0@.ratio().size(), 500, below);
            lemma_sum_tower_grows(parts.1@.ratio().size(), cap + 500, below);
            assert(2 * left.bound() * right.bound() <= 2 * sum_tower(500, below) * sum_tower(
                cap + 500,
                below,
            )) by (nonlinear_arith)
                requires
                    left.bound() <= sum_tower(500, below),
                    right.bound() <= sum_tower(cap + 500, below),
            ;
        }
        EquationTree::BinaryNode(DoubleOperator::Add, Box::new(left), Box::new(right))
    }
}

/// Builds an equation of one to three levels over a random filler value
/// that has a finite value and a bound within [`BOUND_LIMIT`].
///
/// A tree whose value is not finite, because a divisor subtree evaluates to
/// zero, or whose bound exceeds the limit, is thrown away and built anew.
/// After [`ATTEMPTS`] such trees the equation is built from additions alone,
/// which always have a finite value within the limit.
pub fn build_finite(depth: u32) -> (tree: EquationTree)
    requires
        1 <= depth <= 3,
    ensures
        tree.perfect(depth as nat),
        exists|target: DecimalView|
            is_signed_tenth(target) && #[trigger] derives(tree, target, depth as nat),
        tree.value() is Some,
        tree.bound() <= BOUND_LIMIT,
{
    let mut attempt: u32 = 0;
    while attempt < ATTEMPTS
        invariant
            1 <= depth <= 3,
        decreases ATTEMPTS - attempt,
    {
        let target: Decimal = sample_signed_tenth();
        proof {
            lemma_filler_buildable(target@, depth as nat);
        }
        let tree: EquationTree = build(&target, depth);
        let small: bool = match measure(&tree) {
            Some(bound) => bound <= BOUND_LIMIT,
            None => false,
        };
        if small && evaluate(&tree).is_ok() {
            proof {
                assert(is_signed_tenth(target@) && derives(tree, target@, depth as nat));
            }
            return tree;
        }
        attempt = attempt + 1;
    }
    let target: Decimal = sample_signed_tenth();
    let tree: EquationTree = build_sums(&target, depth);
    proof {
        assert(is_signed_tenth(target@) && derives(tree, target@, depth as nat));
        tree.lemma_sums_are_sums_and_quotients();
        lemma_built_value(tree, target@, depth as nat);
        assert(pow10(1) == 10) by {
            reveal_with_fuel(pow10, 2);
        }
        lemma_sum_tower_grows(target@.ratio().size(), 500, depth as nat);
        lemma_sum_tower_limit(depth as nat);
    }
    tree
}

/// A built equation, held as a value that can be shown, evaluated and
/// graded against, and is never changed.
#[derive(Debug)]
pub struct EquationValue {
    node: EquationTree,
}

impl View for EquationValue {
    type V = EquationTree;

    closed spec fn view(&self) -> EquationTree {
        self.node
    }
}

impl EquationValue {
    /// Wraps a finished tree.
    pub fn new(node: EquationTree) -> (r: EquationValue)
        ensures
            r@ == node,
    {
        EquationValue { node }
    }

    /// The display text of the equation.
    pub fn render(&self) -> (r: String)
        ensures
            r@ == self@.text(),
    {
        render(&self.node)
    }
}

impl Equation for EquationValue {
    open spec fn value(&self) -> Option<Ratio> {
        self@.value()
    }

    open spec fn bound(&self) -> nat {
        self@.bound()
    }

    fn calc_value(&self) -> (r: Result<Fraction, EvalError>) {
        proof {
            self.node.lemma_value_bounded();
        }
        evaluate(&self.node)
    }
}

/// Filler values are buildable to three levels.
pub proof fn lemma_filler_buildable(target: DecimalView, depth: nat)
    requires
        is_signed_tenth(target),
        depth <= 3,
    ensures
        buildable(target, depth),
{
    reveal_with_fuel(pow50, 4);
    assert(pow10(0) == 1);
    assert(weight(target) * pow50(depth) <= 1000 * 125000) by (nonlinear_arith)
        requires
            weight(target) <= 1000,
            pow50(depth) <= 125000,
    ;
}

/// A new equation of medium difficulty: one operator level over a random
/// filler value as its target, with a finite value and a bound within
/// [`BOUND_LIMIT`].
pub fn new_medium_equation() -> (r: EquationValue)
    ensures
        r@.perfect(1),
        exists|target: DecimalView| is_signed_tenth(target) && #[trigger] derives(r@, target, 1),
        r@.value() is Some,
        r@.bound() <= BOUND_LIMIT,
{
    let depth: u32 = random_below(1, 2) as u32;
    let node: EquationTree = build_finite(depth);
    EquationValue { node }
}

/// A new equation of high difficulty: two or three operator levels, the
/// number drawn at random, over a random filler value as its target, with a
/// finite value and a bound within [`BOUND_LIMIT`].
pub fn new_complex_equation() -> (r: EquationValue)
    ensures
        r@.perfect(2) || r@.perfect(3),
        exists|target: DecimalView, depth: nat|
            is_signed_tenth(target) && 2 <= depth <= 3 && #[trigger] derives(r@, target, depth),
        r@.value() is Some,
        r@.bound() <= BOUND_LIMIT,
{
    let depth: u32 = random_below(2, 4) as u32;
    let node: EquationTree = build_finite(depth);
    let r: EquationValue = EquationValue { node };
    proof {
        let d: nat = depth as nat;
        let target: DecimalView = choose|target: DecimalView|
            is_signed_tenth(target) && #[trigger] derives(node, target, d);
        assert(is_signed_tenth(target) && 2 <= d <= 3 && derives(r@, target, d));
    }
    r
}

impl EquationTree {
    /// Whether the tree holds no operator but addition and division.
    pub open spec fn sums_and_quotients(self) -> bool
        decreases self,
    {
        match self {
            EquationTree::Leaf(_) => true,
            EquationTree::BinaryNode(op, left, right) => {
                &&& op == DoubleOperator::Add || op == DoubleOperator::Divide
                &&& left.sums_and_quotients()
                &&& right.sums_and_quotients()
            },
        }
    }
}

/// Leaf identity: a tree built to depth zero has exactly the target as its
/// value.
pub proof fn lemma_leaf_identity(tree: EquationTree, target: DecimalView)
    requires
        derives(tree, target, 0),
    ensures
        tree.value() == Some(target.ratio()),
{
}

/// Depth uniformity: in a tree built to `depth` levels every leaf is exactly
/// `depth` edges from the root.
pub proof fn lemma_depth_uniform(tree: EquationTree, target: DecimalView, depth: nat)
    requires
        derives(tree, target, depth),
    ensures
        tree.perfect(depth),
        tree.height() == depth,
    decreases depth,
{
    if depth > 0 {
        if let EquationTree::BinaryNode(op, left, right) = tree {
            let (lt, rt) = choose|lt: DecimalView, rt: DecimalView|
                #[trigger] inverts(op, target, lt, rt) && derives(*left, lt, (depth - 1) as nat)
                    && derives(*right, rt, (depth - 1) as nat);
            lemma_depth_uniform(*left, lt, (depth - 1) as nat);
            lemma_depth_uniform(*right, rt, (depth - 1) as nat);
        }
    }
}

/// One inverted addition or division gives the target back: where the
/// operands have the values `left` and `right` that invert the operator
/// against `target`, the operator applied to them is the target.
pub proof fn lemma_inversion_exact(
    op: DoubleOperator,
    target: DecimalView,
    left: DecimalView,
    right: DecimalView,
    left_value: Ratio,
    right_value: Ratio,
)
    requires
        op == DoubleOperator::Add || op == DoubleOperator::Divide,
        inverts(op, target, left, right),
        left_value.den > 0,
        right_value.den > 0,
        left_value.same(left.ratio()),
        right_value.same(right.ratio()),
    ensures
        op.apply(left_value, right_value) matches Some(v) && v.same(target.ratio()),
{
    let t: Ratio = target.ratio();
    let l: Ratio = left.ratio();
    let r: Ratio = right.ratio();
    lemma_pow10_positive(target.scale);
    lemma_pow10_positive(left.scale);
    lemma_pow10_positive(right.scale);
    if op == DoubleOperator::Add {
        lemma_same_plus(left_value, l, right_value, r);
        lemma_minus_ratio(target, left);
        lemma_same_plus(l, l, r, t.minus(l));
        lemma_add_back(l, t);
        assert(l.den * r.den > 0) by (nonlinear_arith)
            requires
                l.den > 0,
                r.den > 0,
        ;
        assert(l.den * (t.den * l.den) > 0) by (nonlinear_arith)
            requires
                l.den > 0,
                t.den > 0,
        ;
        lemma_same_transitive(left_value.plus(right_value), l.plus(r), l.plus(t.minus(l)));
        lemma_same_transitive(left_value.plus(right_value), l.plus(t.minus(l)), t);
    } else {
        lemma_same_over(l, left_value, r, right_value);
        lemma_times_ratio(right, target);
        lemma_divide_back(r, t);
        assert(l.over(r).den != 0) by {
            if r.num > 0 {
                assert(l.den * r.num > 0) by (nonlinear_arith)
                    requires
                        l.den > 0,
                        r.num > 0,
                ;
            } else {
                assert(l.den * r.num < 0) by (nonlinear_arith)
                    requires
                        l.den > 0,
                        r.num < 0,
                ;
            }
        }
        lemma_same_transitive(left_value.over(right_value), l.over(r), t);
    }
}

/// A tree built from additions and divisions alone has the target as its
/// exact value.
pub proof fn lemma_built_value(tree: EquationTree, target: DecimalView, depth: nat)
    requires
        derives(tree, target, depth),
        tree.sums_and_quotients(),
    ensures
        tree.value() matches Some(v) && v.den > 0 && v.same(target.ratio()),
    decreases depth,
{
    tree.lemma_value_bounded();
    if depth == 0 {
        lemma_pow10_positive(target.scale);
    } else {
        if let EquationTree::BinaryNode(op, left, right) = tree {
            let (lt, rt) = choose|lt: DecimalView, rt: DecimalView|
                #[trigger] inverts(op, target, lt, rt) && derives(*left, lt, (depth - 1) as nat)
                    && derives(*right, rt, (depth - 1) as nat);
            lemma_built_value(*left, lt, (depth - 1) as nat);
            lemma_built_value(*right, rt, (depth - 1) as nat);
            lemma_inversion_exact(op, target, lt, rt, left.value()->0, right.value()->0);
        }
    }
}

/// Addition and division invert exactly: the node over two leaves that hold
/// the inverted operands evaluates to the target.
pub proof fn lemma_add_divide_invertible(
    op: DoubleOperator,
    target: DecimalView,
    left: Decimal,
    right: Decimal,
)
    requires
        op == DoubleOperator::Add || op == DoubleOperator::Divide,
        inverts(op, target, left@, right@),
    ensures
        EquationTree::BinaryNode(
            op,
            Box::new(EquationTree::Leaf(left)),
            Box::new(EquationTree::Leaf(right)),
        ).value() matches Some(v) && v.same(target.ratio()),
{
    reveal_with_fuel(EquationTree::value, 2);
    lemma_pow10_positive(left@.scale);
    lemma_pow10_positive(right@.scale);
    lemma_inversion_exact(op, target, left@, right@, left@.ratio(), right@.ratio());
}

/// Subtraction inverts to the negated target: the node over two leaves that
/// hold the inverted operands evaluates to the target with its sign changed.
pub proof fn lemma_subtract_negates(target: DecimalView, left: Decimal, right: Decimal)
    requires
        inverts(DoubleOperator::Subtract, target, left@, right@),
    ensures
        EquationTree::BinaryNode(
            DoubleOperator::Subtract,
            Box::new(EquationTree::Leaf(left)),
            Box::new(EquationTree::Leaf(right)),
        ).value() matches Some(v) && v.same(
            Ratio { num: -target.ratio().num, den: target.ratio().den },
        ),
{
    reveal_with_fuel(EquationTree::value, 2);
    let t: Ratio = target.ratio();
    let l: Ratio = left@.ratio();
    let r: Ratio = right@.ratio();
    lemma_pow10_positive(target.scale);
    lemma_pow10_positive(left@.scale);
    lemma_plus_ratio(target, left@);
    lemma_same_minus(l, l, r, t.plus(l));
    lemma_subtract_back(l, t);
    assert(l.den * (t.den * l.den) > 0) by (nonlinear_arith)
        requires
            l.den > 0,
            t.den > 0,
    ;
    lemma_same_transitive(l.minus(r), l.minus(t.plus(l)), Ratio { num: -t.num, den: t.den });
}

} // verus!
