//! Integer factor pairs of a decimal target.
//!
//! The target is scaled to an integer by a decimal precision; every divisor
//! of that integer up to its square root gives one pair of decimals at the
//! same precision, with signs that multiply to the sign of the target.

use vstd::prelude::*;
use crate::decimal::{magnitude, pow10, pow10_exec, Decimal, DecimalView, MAX_SCALE};
use crate::random::random_flag;

verus! {

/// The quotient `n / d` rounded to the nearest integer, a tie going up.
pub open spec fn round_half_up(n: nat, d: nat) -> nat {
    (2 * n + d) / (2 * d)
}

/// The magnitude of the target in units of `10^-precision`, rounded to the
/// nearest unit.
pub open spec fn scaled_target(target: DecimalView, precision: nat) -> nat {
    round_half_up(magnitude(target.digits) * pow10(precision), pow10(target.scale))
}

/// The pairs `(d, n / d)` for the divisors `d` of `n` with `1 <= d < upto`
/// and `d * d <= n`, in ascending order of `d`.
pub open spec fn factor_pairs_below(n: nat, upto: nat) -> Seq<(nat, nat)>
    decreases upto,
{
    if upto <= 1 {
        Seq::empty()
    } else {
        let d = (upto - 1) as nat;
        let rest = factor_pairs_below(n, d);
        if d * d <= n && n % d == 0 {
            rest.push((d, n / d))
        } else {
            rest
        }
    }
}

/// The pairs `(d, n / d)` for every divisor `d` of `n` from one up to the
/// square root of `n`, in ascending order of `d`.
pub open spec fn factor_magnitudes(n: nat) -> Seq<(nat, nat)> {
    factor_pairs_below(n, n + 1)
}

/// No divisor beyond the square root adds a pair.
pub proof fn lemma_factor_pairs_stop(n: nat, d: nat, upto: nat)
    requires
        d >= 1,
        d * d > n,
        d <= upto,
    ensures
        factor_pairs_below(n, upto) == factor_pairs_below(n, d),
    decreases upto,
{
    if upto > d {
        let last: nat = (upto - 1) as nat;
        assert(last * last > n) by (nonlinear_arith)
            requires
                last >= d,
                d * d > n,
        ;
        lemma_factor_pairs_stop(n, d, last);
    }
}

/// Every pair multiplies to `n`, and its first member is the smaller one.
pub proof fn lemma_factor_pairs_multiply(n: nat, upto: nat, i: int)
    requires
        0 <= i < factor_pairs_below(n, upto).len(),
    ensures
        ({
            let p = factor_pairs_below(n, upto)[i];
            &&& 1 <= p.0 < upto
            &&& p.0 <= p.1
            &&& p.0 * p.1 == n
            &&& p.1 == n / p.0
            &&& p.0 * p.0 <= n
        }),
    decreases upto,
{
    if upto > 1 {
        let d: nat = (upto - 1) as nat;
        let rest = factor_pairs_below(n, d);
        if i < rest.len() {
            lemma_factor_pairs_multiply(n, d, i);
        } else {
            assert(d * d <= n && n % d == 0);
            vstd::arithmetic::div_mod::lemma_fundamental_div_mod(n as int, d as int);
            assert(d * (n / d) == n);
            assert(d <= n / d) by (nonlinear_arith)
                requires
                    d >= 1,
                    d * d <= n,
                    d * (n / d) == n,
            ;
        }
    }
}

/// The list of pairs is empty exactly for zero.
pub proof fn lemma_factor_magnitudes_empty(n: nat)
    ensures
        factor_magnitudes(n).len() == 0 <==> n == 0,
{
    if n == 0 {
        assert(factor_pairs_below(0, 1).len() == 0);
    } else {
        lemma_factor_pairs_grow(n, 2, n + 1);
        assert(factor_pairs_below(n, 1).len() == 0);
        assert(1 * 1 <= n && n % 1 == 0);
        assert(factor_pairs_below(n, 2).len() == 1);
    }
}

/// A longer scan finds at least the pairs of a shorter one.
pub proof fn lemma_factor_pairs_grow(n: nat, a: nat, b: nat)
    requires
        a <= b,
    ensures
        factor_pairs_below(n, a).len() <= factor_pairs_below(n, b).len(),
    decreases b,
{
    if a < b {
        lemma_factor_pairs_grow(n, a, (b - 1) as nat);
    }
}

/// Lists the factor pairs of `n`: one for each divisor up to the square root.
pub fn factor_pairs(n: u64) -> (r: Vec<(u64, u64)>)
    ensures
        r@.len() == factor_magnitudes(n as nat).len(),
        forall|i: int|
            0 <= i < r@.len() ==> (#[trigger] r@[i]).0 == factor_magnitudes(n as nat)[i].0 && r@[i].1
                == factor_magnitudes(n as nat)[i].1,
{
    let mut out: Vec<(u64, u64)> = Vec::new();
    let mut d: u64 = 1;
    let mut square: u128 = 1;
    while square <= n as u128
        invariant
            1 <= d <= n + 1,
            square == d * d,
            out@.len() == factor_pairs_below(n as nat, d as nat).len(),
            forall|i: int|
                0 <= i < out@.len() ==> (#[trigger] out@[i]).0 == factor_pairs_below(
                    n as nat,
                    d as nat,
                )[i].0 && out@[i].1 == factor_pairs_below(n as nat, d as nat)[i].1,
        decreases n + 1 - d,
    {
        assert(d <= n && d <= 0xFFFF_FFFF) by (nonlinear_arith)
            requires
                d >= 1,
                d * d <= n,
                n <= u64::MAX,
        ;
        if n % d == 0 {
            out.push((d, n / d));
        }
        assert((d + 1) * (d + 1) == d * d + 2 * d + 1) by (nonlinear_arith);
        square = square + 2 * (d as u128) + 1;
        d = d + 1;
    }
    proof {
        lemma_factor_pairs_stop(n as nat, d as nat, (n + 1) as nat);
    }
    out
}

/// A pair of magnitudes at a decimal precision, signed so that the product
/// has the sign of the target: both members alike for a target that is not
/// negative, exactly one of them negative otherwise. The coin picks between
/// the two assignments.
pub open spec fn signed_pair(negative: bool, coin: bool, pair: (nat, nat), precision: nat) -> (
    DecimalView,
    DecimalView,
) {
    let first: int = if negative != coin {
        pair.0 as int
    } else {
        -(pair.0 as int)
    };
    let second: int = if coin {
        pair.1 as int
    } else {
        -(pair.1 as int)
    };
    (
        DecimalView { digits: first, scale: precision },
        DecimalView { digits: second, scale: precision },
    )
}

/// Whether two decimals are one of the two signed forms of a pair.
pub open spec fn is_signed_pair(
    negative: bool,
    pair: (nat, nat),
    precision: nat,
    left: DecimalView,
    right: DecimalView,
) -> bool {
    (left, right) == signed_pair(negative, true, pair, precision) || (left, right) == signed_pair(
        negative,
        false,
        pair,
        precision,
    )
}

/// The digits of a signed pair multiply to the product of the magnitudes,
/// negated for a negative target.
pub proof fn lemma_signed_pair_product(negative: bool, coin: bool, pair: (nat, nat), precision: nat)
    ensures
        signed_pair(negative, coin, pair, precision).0.digits * signed_pair(
            negative,
            coin,
            pair,
            precision,
        ).1.digits == if negative {
            -(pair.0 as int * pair.1 as int)
        } else {
            pair.0 as int * pair.1 as int
        },
{
    let a: int = pair.0 as int;
    let b: int = pair.1 as int;
    let left: int = signed_pair(negative, coin, pair, precision).0.digits;
    let right: int = signed_pair(negative, coin, pair, precision).1.digits;
    let sign_left: int = if negative != coin { 1 } else { -1 };
    let sign_right: int = if coin { 1 } else { -1 };
    assert(left == sign_left * a && right == sign_right * b);
    assert(left * right == (sign_left * sign_right) * (a * b)) by (nonlinear_arith)
        requires
            left == sign_left * a,
            right == sign_right * b,
    ;
    if negative {
        assert(sign_left * sign_right == -1);
        assert((sign_left * sign_right) * (a * b) == -(a * b));
    } else {
        assert(sign_left * sign_right == 1);
        assert((sign_left * sign_right) * (a * b) == a * b);
    }
}

/// The members of every signed factor pair of a target multiply to the
/// scaled target, negated for a negative target, in units of the precision
/// squared; neither member is zero, and the first is the one of smaller
/// magnitude.
pub proof fn lemma_pair_product(
    target: DecimalView,
    precision: nat,
    i: int,
    left: DecimalView,
    right: DecimalView,
)
    requires
        0 <= i < factor_magnitudes(scaled_target(target, precision)).len(),
        is_signed_pair(
            target.digits < 0,
            factor_magnitudes(scaled_target(target, precision))[i],
            precision,
            left,
            right,
        ),
    ensures
        left.scale == precision,
        right.scale == precision,
        left.digits * right.digits == if target.digits < 0 {
            -(scaled_target(target, precision) as int)
        } else {
            scaled_target(target, precision) as int
        },
        1 <= magnitude(left.digits) <= magnitude(right.digits),
        left.times(right) == (DecimalView {
            digits: if target.digits < 0 {
                -(scaled_target(target, precision) as int)
            } else {
                scaled_target(target, precision) as int
            },
            scale: 2 * precision,
        }),
{
    let scaled: nat = scaled_target(target, precision);
    let pair = factor_magnitudes(scaled)[i];
    lemma_factor_pairs_multiply(scaled, scaled + 1, i);
    lemma_signed_pair_product(target.digits < 0, true, pair, precision);
    lemma_signed_pair_product(target.digits < 0, false, pair, precision);
}

/// Scales the magnitude of `target` to units of `10^-precision` and rounds
/// it to the nearest unit.
pub fn scale_target(target: &Decimal, precision: u32) -> (r: u128)
    requires
        precision <= MAX_SCALE,
    ensures
        r == scaled_target(target@, precision as nat),
{
    let digits: i64 = target.digits();
    let size: u128 = if digits >= 0 {
        digits as u128
    } else {
        (-(digits as i128)) as u128
    };
    let unit: u128 = pow10_exec(precision) as u128;
    let den: u128 = pow10_exec(target.scale()) as u128;
    assert(size * unit <= 9_223_372_036_854_775_808 * 1_000_000_000_000_000_000) by (nonlinear_arith)
        requires
            size <= 9_223_372_036_854_775_808,
            unit <= 1_000_000_000_000_000_000,
    ;
    (2 * (size * unit) + den) / (2 * den)
}

/// Signs one pair of magnitudes for a target of the given sign.
pub fn sign_pair(negative: bool, coin: bool, pair: (u64, u64), precision: u32) -> (r: (
    Decimal,
    Decimal,
))
    requires
        precision <= MAX_SCALE,
        pair.0 <= i64::MAX,
        pair.1 <= i64::MAX,
    ensures
        (r.0@, r.1@) == signed_pair(negative, coin, (pair.0 as nat, pair.1 as nat), precision as nat),
{
    let a: i64 = pair.0 as i64;
    let b: i64 = pair.1 as i64;
    let first: i64 = if negative != coin {
        a
    } else {
        -a
    };
    let second: i64 = if coin {
        b
    } else {
        -b
    };
    (Decimal::new(first, precision).unwrap(), Decimal::new(second, precision).unwrap())
}

/// Finds the factor pairs of `target` at a decimal precision.
///
/// The target's magnitude is scaled and rounded to an integer; each divisor
/// of it from one up to its square root gives one pair, in ascending order of
/// the divisor, signed by a coin of its own. The list is empty exactly where
/// the scaled target is zero.
pub fn find_factor_pairs(target: &Decimal, precision: u32) -> (r: Vec<(Decimal, Decimal)>)
    requires
        precision <= MAX_SCALE,
        scaled_target(target@, precision as nat) <= i64::MAX,
    ensures
        r@.len() == factor_magnitudes(scaled_target(target@, precision as nat)).len(),
        r@.len() == 0 <==> scaled_target(target@, precision as nat) == 0,
        forall|i: int|
            0 <= i < r@.len() ==> is_signed_pair(
                target@.digits < 0,
                factor_magnitudes(scaled_target(target@, precision as nat))[i],
                precision as nat,
                (#[trigger] r@[i]).0@,
                r@[i].1@,
            ),
{
    let scaled: u64 = scale_target(target, precision) as u64;
    let negative: bool = target.digits() < 0;
    let pairs: Vec<(u64, u64)> = factor_pairs(scaled);
    let ghost plain = factor_magnitudes(scaled as nat);
    let mut out: Vec<(Decimal, Decimal)> = Vec::new();
    let mut i: usize = 0;
    while i < pairs.len()
        invariant
            i <= pairs@.len(),
            precision <= MAX_SCALE,
            scaled <= i64::MAX,
            plain == factor_magnitudes(scaled as nat),
            pairs@.len() == plain.len(),
            forall|j: int|
                0 <= j < pairs@.len() ==> (#[trigger] pairs@[j]).0 == plain[j].0 && pairs@[j].1
                    == plain[j].1,
            out@.len() == i,
            forall|j: int|
                0 <= j < i ==> is_signed_pair(
                    negative,
                    plain[j],
                    precision as nat,
                    (#[trigger] out@[j]).0@,
                    out@[j].1@,
                ),
        decreases pairs@.len() - i,
    {
        let pair: (u64, u64) = pairs[i];
        proof {
            lemma_factor_pairs_multiply(scaled as nat, (scaled + 1) as nat, i as int);
            assert(plain[i as int].1 <= scaled) by (nonlinear_arith)
                requires
                    plain[i as int].0 >= 1,
                    plain[i as int].0 * plain[i as int].1 == scaled,
            ;
        }
        let coin: bool = random_flag();
        let signed: (Decimal, Decimal) = sign_pair(negative, coin, pair, precision);
        out.push(signed);
        i = i + 1;
    }
    proof {
        lemma_factor_magnitudes_empty(scaled as nat);
    }
    out
}

} // verus!
