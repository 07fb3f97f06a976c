//! Exact decimal numbers and the fractions that arithmetic on them yields.

use vstd::prelude::*;

verus! {

/// The largest number of fractional digits a [`Decimal`] can carry.
pub const MAX_SCALE: u32 = 18;

/// Ten to the power `n`.
pub open spec fn pow10(n: nat) -> nat
    decreases n,
{
    if n == 0 {
        1
    } else {
        10 * pow10((n - 1) as nat)
    }
}

/// Every power of ten is at least one.
pub proof fn lemma_pow10_positive(n: nat)
    ensures
        pow10(n) >= 1,
    decreases n,
{
    if n > 0 {
        lemma_pow10_positive((n - 1) as nat);
    }
}

/// Powers of ten grow with the exponent.
pub proof fn lemma_pow10_monotonic(a: nat, b: nat)
    requires
        a <= b,
    ensures
        pow10(a) <= pow10(b),
    decreases b,
{
    if a < b {
        lemma_pow10_monotonic(a, (b - 1) as nat);
        lemma_pow10_positive((b - 1) as nat);
    }
}

/// The power of a sum is the product of the powers.
pub proof fn lemma_pow10_sum(a: nat, b: nat)
    ensures
        pow10(a + b) == pow10(a) * pow10(b),
    decreases a,
{
    if a == 0 {
        assert(pow10(a) * pow10(b) == pow10(b)) by (nonlinear_arith)
            requires
                pow10(a) == 1,
        ;
    } else {
        let p: nat = (a - 1) as nat;
        lemma_pow10_sum(p, b);
        assert(pow10(a + b) == 10 * pow10(p + b));
        assert(10 * (pow10(p) * pow10(b)) == (10 * pow10(p)) * pow10(b)) by (nonlinear_arith);
    }
}

/// The value of the largest power of ten that a scale can name.
pub proof fn lemma_pow10_max()
    ensures
        pow10(MAX_SCALE as nat) == 1_000_000_000_000_000_000,
{
    reveal_with_fuel(pow10, 19);
}

/// Computes ten to the power `n`.
pub fn pow10_exec(n: u32) -> (r: i64)
    requires
        n <= MAX_SCALE,
    ensures
        r == pow10(n as nat),
        1 <= r <= 1_000_000_000_000_000_000,
{
    let mut r: i64 = 1;
    let mut i: u32 = 0;
    while i < n
        invariant
            i <= n,
            n <= MAX_SCALE,
            r == pow10(i as nat),
        decreases n - i,
    {
        proof {
            lemma_pow10_monotonic((i + 1) as nat, MAX_SCALE as nat);
            lemma_pow10_max();
        }
        r = r * 10;
        i = i + 1;
    }
    proof {
        lemma_pow10_positive(n as nat);
        lemma_pow10_monotonic(n as nat, MAX_SCALE as nat);
        lemma_pow10_max();
    }
    r
}

/// The magnitude of an integer.
pub open spec fn magnitude(x: int) -> nat {
    if x >= 0 {
        x as nat
    } else {
        (-x) as nat
    }
}

/// A fraction of two mathematical integers. Values produced by this library
/// keep the denominator positive.
pub struct Ratio {
    pub num: int,
    pub den: int,
}

impl Ratio {
    /// Whether two fractions with positive denominators name the same number.
    pub open spec fn same(self, other: Ratio) -> bool {
        self.num * other.den == other.num * self.den
    }

    /// The sum, over the product of the denominators.
    pub open spec fn plus(self, other: Ratio) -> Ratio {
        Ratio { num: self.num * other.den + other.num * self.den, den: self.den * other.den }
    }

    /// The difference, over the product of the denominators.
    pub open spec fn minus(self, other: Ratio) -> Ratio {
        Ratio { num: self.num * other.den - other.num * self.den, den: self.den * other.den }
    }

    /// The product, numerator by numerator and denominator by denominator.
    pub open spec fn times(self, other: Ratio) -> Ratio {
        Ratio { num: self.num * other.num, den: self.den * other.den }
    }

    /// The quotient, with the sign carried by the numerator. Meaningful only
    /// where `other.num != 0`.
    pub open spec fn over(self, other: Ratio) -> Ratio {
        if other.num > 0 {
            Ratio { num: self.num * other.den, den: self.den * other.num }
        } else {
            Ratio { num: -(self.num * other.den), den: -(self.den * other.num) }
        }
    }

    /// The larger of the magnitudes of numerator and denominator.
    pub open spec fn size(self) -> nat {
        if magnitude(self.num) >= magnitude(self.den) {
            magnitude(self.num)
        } else {
            magnitude(self.den)
        }
    }

    /// The distance between two fractions with positive denominators.
    pub open spec fn distance(self, other: Ratio) -> Ratio {
        let d = self.minus(other);
        if d.num >= 0 {
            d
        } else {
            Ratio { num: -d.num, den: d.den }
        }
    }
}

/// Sameness of fractions carries across a fraction with a denominator other
/// than zero.
pub proof fn lemma_same_transitive(a: Ratio, b: Ratio, c: Ratio)
    requires
        a.same(b),
        b.same(c),
        b.den != 0,
    ensures
        a.same(c),
{
    let x: int = a.num * c.den;
    let y: int = c.num * a.den;
    assert(x * b.den == y * b.den) by (nonlinear_arith)
        requires
            a.num * b.den == b.num * a.den,
            b.num * c.den == c.num * b.den,
            x == a.num * c.den,
            y == c.num * a.den,
    ;
    assert(x == y) by (nonlinear_arith)
        requires
            x * b.den == y * b.den,
            b.den != 0,
    ;
}

/// Regrouping a product of four integers.
proof fn lemma_regroup(w: int, x: int, y: int, z: int)
    ensures
        (w * x) * (y * z) == (w * y) * (x * z),
        (w * x) * (y * z) == (w * z) * (x * y),
        (w * x) * (y * z) == (y * z) * (w * x),
{
    assert((w * x) * (y * z) == (w * y) * (x * z)) by (nonlinear_arith);
    assert((w * x) * (y * z) == (w * z) * (x * y)) by (nonlinear_arith);
    assert((w * x) * (y * z) == (y * z) * (w * x)) by (nonlinear_arith);
}

/// Sums of fractions that are the same are the same.
pub proof fn lemma_same_plus(a: Ratio, a2: Ratio, b: Ratio, b2: Ratio)
    requires
        a.same(a2),
        b.same(b2),
    ensures
        a.plus(b).same(a2.plus(b2)),
{
    let left: int = (a.num * b.den + b.num * a.den) * (a2.den * b2.den);
    let right: int = (a2.num * b2.den + b2.num * a2.den) * (a.den * b.den);
    assert(left == (a.num * b.den) * (a2.den * b2.den) + (b.num * a.den) * (a2.den * b2.den))
        by (nonlinear_arith)
        requires
            left == (a.num * b.den + b.num * a.den) * (a2.den * b2.den),
    ;
    assert(right == (a2.num * b2.den) * (a.den * b.den) + (b2.num * a2.den) * (a.den * b.den))
        by (nonlinear_arith)
        requires
            right == (a2.num * b2.den + b2.num * a2.den) * (a.den * b.den),
    ;
    // each term regroups into a cross product of one pair times the
    // denominators of the other
    lemma_regroup(a.num, b.den, a2.den, b2.den);
    lemma_regroup(a2.num, b2.den, a.den, b.den);
    lemma_regroup(b.num, a.den, a2.den, b2.den);
    lemma_regroup(b2.num, a2.den, a.den, b.den);
    assert((a.num * b.den) * (a2.den * b2.den) == (a.num * a2.den) * (b.den * b2.den));
    assert((a2.num * b2.den) * (a.den * b.den) == (a2.num * a.den) * (b2.den * b.den));
    assert(b.den * b2.den == b2.den * b.den) by (nonlinear_arith);
    assert((b.num * a.den) * (a2.den * b2.den) == (b.num * b2.den) * (a.den * a2.den));
    assert((b2.num * a2.den) * (a.den * b.den) == (b2.num * b.den) * (a2.den * a.den));
    assert(a.den * a2.den == a2.den * a.den) by (nonlinear_arith);
}

/// Differences of fractions that are the same are the same.
pub proof fn lemma_same_minus(a: Ratio, a2: Ratio, b: Ratio, b2: Ratio)
    requires
        a.same(a2),
        b.same(b2),
    ensures
        a.minus(b).same(a2.minus(b2)),
{
    let nb: Ratio = Ratio { num: -b.num, den: b.den };
    let nb2: Ratio = Ratio { num: -b2.num, den: b2.den };
    assert((-b.num) * b2.den == (-b2.num) * b.den) by (nonlinear_arith)
        requires
            b.num * b2.den == b2.num * b.den,
    ;
    lemma_same_plus(a, a2, nb, nb2);
    assert(a.num * b.den + (-b.num) * a.den == a.num * b.den - b.num * a.den)
        by (nonlinear_arith);
    assert(a2.num * b2.den + (-b2.num) * a2.den == a2.num * b2.den - b2.num * a2.den)
        by (nonlinear_arith);
}

/// Quotients of fractions that are the same are the same, and a divisor that
/// is not zero stays so.
pub proof fn lemma_same_over(a: Ratio, a2: Ratio, b: Ratio, b2: Ratio)
    requires
        a.same(a2),
        b.same(b2),
        b.den > 0,
        b2.den > 0,
        b.num != 0,
    ensures
        b2.num != 0,
        (b.num > 0) == (b2.num > 0),
        a.over(b).same(a2.over(b2)),
{
    assert(b2.num != 0 && ((b.num > 0) == (b2.num > 0))) by (nonlinear_arith)
        requires
            b.num * b2.den == b2.num * b.den,
            b.den > 0,
            b2.den > 0,
            b.num != 0,
    ;
    let x: int = a.num * b.den;
    let y: int = a2.den * b2.num;
    let u: int = a2.num * b2.den;
    let v: int = a.den * b.num;
    lemma_regroup(a.num, b.den, a2.den, b2.num);
    lemma_regroup(a2.num, b2.den, a.den, b.num);
    assert(x * y == (a.num * a2.den) * (b.den * b2.num));
    assert(u * v == (a2.num * a.den) * (b2.den * b.num));
    assert(b.den * b2.num == b2.num * b.den && b2.den * b.num == b.num * b2.den)
        by (nonlinear_arith);
    assert(x * y == u * v);
    assert((-x) * (-y) == x * y && (-u) * (-v) == u * v && (-x) * y == u * (-v) && x * (-y) == (-u)
        * v) by (nonlinear_arith)
        requires
            x * y == u * v,
    ;
}

/// Adding to a fraction what another one exceeds it by gives the other.
pub proof fn lemma_add_back(left: Ratio, target: Ratio)
    ensures
        left.plus(target.minus(left)).same(target),
{
    let l: int = left.num;
    let m: int = left.den;
    let t: int = target.num;
    let u: int = target.den;
    assert((l * (u * m) + (t * m - l * u) * m) * u == t * (m * (u * m))) by (nonlinear_arith);
}

/// Taking from a fraction the sum of another one and itself gives the
/// other one negated.
pub proof fn lemma_subtract_back(left: Ratio, target: Ratio)
    ensures
        left.minus(target.plus(left)).same(Ratio { num: -target.num, den: target.den }),
{
    let l: int = left.num;
    let m: int = left.den;
    let t: int = target.num;
    let u: int = target.den;
    assert((l * (u * m) - (t * m + l * u) * m) * u == (-t) * (m * (u * m))) by (nonlinear_arith);
}

/// Dividing the product of two fractions by the first, which is not zero,
/// gives the second.
pub proof fn lemma_divide_back(divisor: Ratio, target: Ratio)
    requires
        divisor.num != 0,
    ensures
        divisor.times(target).over(divisor).same(target),
{
    let r: int = divisor.num;
    let m: int = divisor.den;
    let t: int = target.num;
    let u: int = target.den;
    assert(((r * t) * m) * u == t * ((m * u) * r)) by (nonlinear_arith);
    assert((-((r * t) * m)) * u == t * (-((m * u) * r))) by (nonlinear_arith);
}

/// What a [`Decimal`] stands for: the number `digits / 10^scale`.
pub struct DecimalView {
    pub digits: int,
    pub scale: nat,
}

impl DecimalView {
    /// The number as a fraction over a power of ten.
    pub open spec fn ratio(self) -> Ratio {
        Ratio { num: self.digits, den: pow10(self.scale) as int }
    }

    /// Whether a [`Decimal`] can hold the number as it is written.
    pub open spec fn representable(self) -> bool {
        &&& self.scale <= MAX_SCALE
        &&& i64::MIN <= self.digits <= i64::MAX
    }

    /// The larger of two scales.
    pub open spec fn common_scale(self, other: DecimalView) -> nat {
        if self.scale >= other.scale {
            self.scale
        } else {
            other.scale
        }
    }

    /// The digits of the number written at a scale that is not smaller than
    /// its own.
    pub open spec fn digits_at(self, scale: nat) -> int {
        self.digits * pow10((scale - self.scale) as nat)
    }

    /// The exact sum, at the larger of the two scales.
    pub open spec fn plus(self, other: DecimalView) -> DecimalView {
        let scale = self.common_scale(other);
        DecimalView { digits: self.digits_at(scale) + other.digits_at(scale), scale }
    }

    /// The exact difference, at the larger of the two scales.
    pub open spec fn minus(self, other: DecimalView) -> DecimalView {
        let scale = self.common_scale(other);
        DecimalView { digits: self.digits_at(scale) - other.digits_at(scale), scale }
    }

    /// The exact product, at the sum of the two scales.
    pub open spec fn times(self, other: DecimalView) -> DecimalView {
        DecimalView { digits: self.digits * other.digits, scale: self.scale + other.scale }
    }
}

/// Writing a decimal at a larger scale does not change the number.
pub proof fn lemma_digits_at(d: DecimalView, scale: nat)
    requires
        d.scale <= scale,
    ensures
        (Ratio { num: d.digits_at(scale), den: pow10(scale) as int }).same(d.ratio()),
        pow10(scale) > 0,
{
    let step: nat = (scale - d.scale) as nat;
    lemma_pow10_sum(step, d.scale);
    lemma_pow10_positive(scale);
    assert((d.digits * pow10(step)) * pow10(d.scale) == d.digits * (pow10(step) * pow10(d.scale)))
        by (nonlinear_arith);
}

/// The sum of two decimals is the sum of their fractions.
pub proof fn lemma_plus_ratio(a: DecimalView, b: DecimalView)
    ensures
        a.plus(b).ratio().same(a.ratio().plus(b.ratio())),
{
    let scale: nat = a.common_scale(b);
    let unit: int = pow10(scale) as int;
    let wide_a: Ratio = Ratio { num: a.digits_at(scale), den: unit };
    let wide_b: Ratio = Ratio { num: b.digits_at(scale), den: unit };
    lemma_digits_at(a, scale);
    lemma_digits_at(b, scale);
    lemma_same_plus(wide_a, a.ratio(), wide_b, b.ratio());
    let x: int = a.digits_at(scale);
    let y: int = b.digits_at(scale);
    assert((x + y) * (unit * unit) == (x * unit + y * unit) * unit) by (nonlinear_arith);
    assert(unit * unit != 0) by (nonlinear_arith)
        requires
            unit > 0,
    ;
    lemma_same_transitive(a.plus(b).ratio(), wide_a.plus(wide_b), a.ratio().plus(b.ratio()));
}

/// The difference of two decimals is the difference of their fractions.
pub proof fn lemma_minus_ratio(a: DecimalView, b: DecimalView)
    ensures
        a.minus(b).ratio().same(a.ratio().minus(b.ratio())),
{
    let scale: nat = a.common_scale(b);
    let unit: int = pow10(scale) as int;
    let wide_a: Ratio = Ratio { num: a.digits_at(scale), den: unit };
    let wide_b: Ratio = Ratio { num: b.digits_at(scale), den: unit };
    lemma_digits_at(a, scale);
    lemma_digits_at(b, scale);
    lemma_same_minus(wide_a, a.ratio(), wide_b, b.ratio());
    let x: int = a.digits_at(scale);
    let y: int = b.digits_at(scale);
    assert((x - y) * (unit * unit) == (x * unit - y * unit) * unit) by (nonlinear_arith);
    assert(unit * unit != 0) by (nonlinear_arith)
        requires
            unit > 0,
    ;
    lemma_same_transitive(a.minus(b).ratio(), wide_a.minus(wide_b), a.ratio().minus(b.ratio()));
}

/// The product of two decimals is the product of their fractions.
pub proof fn lemma_times_ratio(a: DecimalView, b: DecimalView)
    ensures
        a.times(b).ratio() == a.ratio().times(b.ratio()),
{
    lemma_pow10_sum(a.scale, b.scale);
}

/// An exact decimal number: an integer count of units of `10^-scale`.
#[derive(Clone, Copy, Debug, PartialEq, Eq, Structural)]
pub struct Decimal {
    digits: i64,
    scale: u32,
}

impl View for Decimal {
    type V = DecimalView;

    closed spec fn view(&self) -> DecimalView {
        DecimalView { digits: self.digits as int, scale: self.scale as nat }
    }
}

impl Decimal {
    /// Every decimal keeps its scale within [`MAX_SCALE`] and its digits in
    /// sixty-four bits.
    #[verifier::type_invariant]
    pub open spec fn wf(self) -> bool {
        &&& self@.scale <= MAX_SCALE
        &&& i64::MIN <= self@.digits <= i64::MAX
    }

    /// The decimal `digits / 10^scale`, or nothing where the scale is out of
    /// range.
    pub fn new(digits: i64, scale: u32) -> (r: Option<Decimal>)
        ensures
            r is Some <==> scale <= MAX_SCALE,
            r matches Some(d) ==> d@ == (DecimalView { digits: digits as int, scale: scale as nat }),
    {
        if scale <= MAX_SCALE {
            Some(Decimal { digits, scale })
        } else {
            None
        }
    }

    /// The decimal `tenths / 10`.
    pub fn from_tenths(tenths: i64) -> (r: Decimal)
        ensures
            r@ == (DecimalView { digits: tenths as int, scale: 1 }),
    {
        Decimal { digits: tenths, scale: 1 }
    }

    /// The integer count of units of `10^-scale`.
    pub fn digits(&self) -> (r: i64)
        ensures
            r == self@.digits,
    {
        self.digits
    }

    /// The number of fractional digits.
    pub fn scale(&self) -> (r: u32)
        ensures
            r == self@.scale,
            r <= MAX_SCALE,
    {
        proof {
            use_type_invariant(self);
        }
        self.scale
    }

    /// The digits of the decimal written at `scale`, which is not smaller
    /// than its own scale.
    fn widen(&self, scale: u32) -> (r: i128)
        requires
            self@.scale <= scale <= MAX_SCALE,
        ensures
            r == self@.digits_at(scale as nat),
            -10_000_000_000_000_000_000_000_000_000_000_000_000 < r
                < 10_000_000_000_000_000_000_000_000_000_000_000_000,
            magnitude(r as int) >= magnitude(self@.digits),
    {
        let factor: i128 = pow10_exec(scale - self.scale) as i128;
        let digits: i128 = self.digits as i128;
        assert(-9_223_372_036_854_775_808 * 1_000_000_000_000_000_000 <= digits * factor
            <= 9_223_372_036_854_775_808 * 1_000_000_000_000_000_000 && magnitude(digits * factor)
            >= magnitude(digits as int)) by (nonlinear_arith)
            requires
                -9_223_372_036_854_775_808 <= digits <= 9_223_372_036_854_775_808,
                1 <= factor <= 1_000_000_000_000_000_000,
        ;
        digits * factor
    }

    /// The exact sum of two decimals, or nothing where a decimal cannot
    /// hold it.
    pub fn checked_plus(&self, other: &Decimal) -> (r: Option<Decimal>)
        ensures
            r is Some <==> self@.plus(other@).representable(),
            r matches Some(d) ==> d@ == self@.plus(other@),
    {
        proof {
            use_type_invariant(self);
            use_type_invariant(other);
        }
        let scale: u32 = if self.scale >= other.scale {
            self.scale
        } else {
            other.scale
        };
        let total: i128 = self.widen(scale) + other.widen(scale);
        if total < -9_223_372_036_854_775_808 || total > 9_223_372_036_854_775_807 {
            None
        } else {
            Some(Decimal { digits: total as i64, scale })
        }
    }

    /// The exact difference of two decimals, or nothing where a decimal
    /// cannot hold it.
    pub fn checked_minus(&self, other: &Decimal) -> (r: Option<Decimal>)
        ensures
            r is Some <==> self@.minus(other@).representable(),
            r matches Some(d) ==> d@ == self@.minus(other@),
    {
        proof {
            use_type_invariant(self);
            use_type_invariant(other);
        }
        let scale: u32 = if self.scale >= other.scale {
            self.scale
        } else {
            other.scale
        };
        let total: i128 = self.widen(scale) - other.widen(scale);
        if total < -9_223_372_036_854_775_808 || total > 9_223_372_036_854_775_807 {
            None
        } else {
            Some(Decimal { digits: total as i64, scale })
        }
    }

    /// The exact product of two decimals, or nothing where a decimal cannot
    /// hold it.
    pub fn checked_times(&self, other: &Decimal) -> (r: Option<Decimal>)
        ensures
            r is Some <==> self@.times(other@).representable(),
            r matches Some(d) ==> d@ == self@.times(other@),
    {
        proof {
            use_type_invariant(self);
            use_type_invariant(other);
        }
        let scale: u32 = self.scale + other.scale;
        let a: i128 = self.digits as i128;
        let b: i128 = other.digits as i128;
        assert(-9_223_372_036_854_775_808 * 9_223_372_036_854_775_808 <= a * b
            <= 9_223_372_036_854_775_808 * 9_223_372_036_854_775_808) by (nonlinear_arith)
            requires
                -9_223_372_036_854_775_808 <= a <= 9_223_372_036_854_775_808,
                -9_223_372_036_854_775_808 <= b <= 9_223_372_036_854_775_808,
        ;
        let total: i128 = a * b;
        if scale > MAX_SCALE || total < -9_223_372_036_854_775_808 || total
            > 9_223_372_036_854_775_807 {
            None
        } else {
            Some(Decimal { digits: total as i64, scale })
        }
    }
}

/// The product of two integers is no larger in magnitude than the product
/// of bounds on their magnitudes.
pub proof fn lemma_product_bounded(x: int, y: int, a: nat, b: nat)
    requires
        magnitude(x) <= a,
        magnitude(y) <= b,
    ensures
        magnitude(x * y) <= a * b,
        magnitude(x * y) == magnitude(x) * magnitude(y),
{
    assert(magnitude(x * y) == magnitude(x) * magnitude(y)) by (nonlinear_arith);
    assert(magnitude(x) * magnitude(y) <= a * b) by (nonlinear_arith)
        requires
            magnitude(x) <= a,
            magnitude(y) <= b,
    ;
}

/// An exact fraction of two machine integers, as evaluation produces it.
#[derive(Clone, Copy, Debug, PartialEq, Eq, Structural)]
pub struct Fraction {
    num: i128,
    den: i128,
}

impl View for Fraction {
    type V = Ratio;

    closed spec fn view(&self) -> Ratio {
        Ratio { num: self.num as int, den: self.den as int }
    }
}

impl Fraction {
    /// The fraction `num / den`.
    pub fn new(num: i128, den: i128) -> (r: Fraction)
        ensures
            r@ == (Ratio { num: num as int, den: den as int }),
    {
        Fraction { num, den }
    }

    /// The numerator.
    pub fn num(&self) -> (r: i128)
        ensures
            r == self@.num,
    {
        self.num
    }

    /// The denominator.
    pub fn den(&self) -> (r: i128)
        ensures
            r == self@.den,
    {
        self.den
    }
}

impl Decimal {
    /// The decimal as a fraction over its power of ten.
    pub fn to_fraction(&self) -> (r: Fraction)
        ensures
            r@ == self@.ratio(),
    {
        proof {
            use_type_invariant(self);
        }
        let den: i64 = pow10_exec(self.scale);
        Fraction { num: self.digits as i128, den: den as i128 }
    }
}

} // verus!
