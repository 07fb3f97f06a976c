use number_pain::decimal::{Decimal, Fraction};
use number_pain::equation::render::{render, render_decimal};
use number_pain::equation::tree::{
    compare_value, evaluate, measure, within_tolerance, DoubleOperator, EquationTree,
};
use number_pain::equation::EvalError;

fn dec(digits: i64, scale: u32) -> Decimal {
    Decimal::new(digits, scale).unwrap()
}

fn leaf(digits: i64, scale: u32) -> EquationTree {
    EquationTree::Leaf(dec(digits, scale))
}

fn node(op: DoubleOperator, left: EquationTree, right: EquationTree) -> EquationTree {
    EquationTree::BinaryNode(op, Box::new(left), Box::new(right))
}

/// Whether the fraction is the number `num / den`.
fn is(f: Fraction, num: i128, den: i128) -> bool {
    f.den() > 0 && f.num() * den == num * f.den()
}

#[test]
fn operator_from_index_follows_the_order_of_the_variants() {
    assert_eq!(DoubleOperator::from_index(0), DoubleOperator::Add);
    assert_eq!(DoubleOperator::from_index(1), DoubleOperator::Subtract);
    assert_eq!(DoubleOperator::from_index(2), DoubleOperator::Multiply);
    assert_eq!(DoubleOperator::from_index(3), DoubleOperator::Divide);
}

#[test]
fn operator_calc_gives_unreduced_fractions() {
    let a = Fraction::new(3, 10);
    let b = Fraction::new(-1, 4);
    assert_eq!(DoubleOperator::Add.calc(a, b), Ok(Fraction::new(2, 40)));
    assert_eq!(DoubleOperator::Subtract.calc(a, b), Ok(Fraction::new(22, 40)));
    assert_eq!(DoubleOperator::Multiply.calc(a, b), Ok(Fraction::new(-3, 40)));
    // the sign moves to the numerator
    assert_eq!(DoubleOperator::Divide.calc(a, b), Ok(Fraction::new(-12, 10)));
    assert_eq!(DoubleOperator::Divide.calc(b, a), Ok(Fraction::new(-10, 12)));
}

#[test]
fn operator_calc_reports_division_by_zero_and_overflow() {
    let a = Fraction::new(3, 10);
    let zero = Fraction::new(0, 7);
    assert_eq!(DoubleOperator::Divide.calc(a, zero), Err(EvalError::DivisionByZero));
    let huge = Fraction::new(i128::MAX, 1);
    assert_eq!(DoubleOperator::Multiply.calc(huge, huge), Err(EvalError::Overflow));
    assert_eq!(DoubleOperator::Add.calc(huge, huge), Err(EvalError::Overflow));
}

#[test]
fn evaluate_leaf_is_its_value() {
    let f = evaluate(&leaf(60, 1)).unwrap();
    assert_eq!((f.num(), f.den()), (60, 10));
    assert!(is(f, 6, 1));
}

#[test]
fn evaluate_reduces_operands_before_operator() {
    // (1.5 + 0.25) * (2.0 - 0.5) = 2.625
    let tree = node(
        DoubleOperator::Multiply,
        node(DoubleOperator::Add, leaf(15, 1), leaf(25, 2)),
        node(DoubleOperator::Subtract, leaf(20, 1), leaf(5, 1)),
    );
    let f = evaluate(&tree).unwrap();
    assert!(is(f, 2625, 1000));
    assert!(!is(f, 2626, 1000));
}

#[test]
fn evaluate_division_is_true_division() {
    // 1.5 / 0.3 = 5
    let tree = node(DoubleOperator::Divide, leaf(15, 1), leaf(3, 1));
    assert!(is(evaluate(&tree).unwrap(), 5, 1));
    // 1 / 3 stays a third
    let third = node(DoubleOperator::Divide, leaf(1, 0), leaf(3, 0));
    assert!(is(evaluate(&third).unwrap(), 1, 3));
    // a negative divisor keeps the denominator positive
    let minus = node(DoubleOperator::Divide, leaf(10, 1), leaf(-4, 1));
    let f = evaluate(&minus).unwrap();
    assert!(f.den() > 0);
    assert!(is(f, -5, 2));
}

#[test]
fn evaluate_reports_a_zero_divisor() {
    let direct = node(DoubleOperator::Divide, leaf(15, 1), leaf(0, 1));
    assert_eq!(evaluate(&direct), Err(EvalError::DivisionByZero));
    // the divisor subtree evaluates to zero
    let hidden = node(
        DoubleOperator::Divide,
        leaf(15, 1),
        node(DoubleOperator::Subtract, leaf(25, 1), leaf(250, 2)),
    );
    assert_eq!(evaluate(&hidden), Err(EvalError::DivisionByZero));
    // and the failure passes upward
    let above = node(DoubleOperator::Add, leaf(1, 0), hidden);
    assert_eq!(evaluate(&above), Err(EvalError::DivisionByZero));
}

#[test]
fn evaluate_reports_overflow() {
    let big = || leaf(i64::MAX, 0);
    let tree = node(
        DoubleOperator::Multiply,
        node(DoubleOperator::Multiply, big(), big()),
        node(DoubleOperator::Multiply, big(), big()),
    );
    assert_eq!(evaluate(&tree), Err(EvalError::Overflow));
}

#[test]
fn compare_value_accepts_within_a_thousandth() {
    let seven = leaf(70, 1);
    assert!(compare_value(&seven, &dec(70, 1)));
    assert!(compare_value(&seven, &dec(70005, 4)));
    assert!(compare_value(&seven, &dec(69995, 4)));
    assert!(compare_value(&seven, &dec(70009, 4)));
    assert!(!compare_value(&seven, &dec(701, 2)));
    assert!(!compare_value(&seven, &dec(699, 2)));
}

#[test]
fn compare_value_rejects_a_distance_of_exactly_a_thousandth() {
    let seven = leaf(70, 1);
    assert!(!compare_value(&seven, &dec(7001, 3)));
    assert!(!compare_value(&seven, &dec(6999, 3)));
}

#[test]
fn compare_value_grades_a_quotient() {
    // 1 / 3 = 0.3333...
    let third = node(DoubleOperator::Divide, leaf(1, 0), leaf(3, 0));
    assert!(compare_value(&third, &dec(333, 3)));
    assert!(compare_value(&third, &dec(3340, 4)));
    assert!(!compare_value(&third, &dec(335, 3)));
    assert!(!compare_value(&third, &dec(3, 1)));
}

#[test]
fn compare_value_accepts_nothing_without_a_value() {
    let tree = node(DoubleOperator::Divide, leaf(15, 1), leaf(0, 1));
    assert!(!compare_value(&tree, &dec(0, 1)));
    assert!(!compare_value(&tree, &dec(15, 1)));
}

#[test]
fn within_tolerance_decides_from_the_outcome() {
    assert!(within_tolerance(Ok(Fraction::new(7, 1)), &dec(70005, 4)));
    assert!(!within_tolerance(Ok(Fraction::new(7, 1)), &dec(701, 2)));
    assert!(!within_tolerance(Err(EvalError::DivisionByZero), &dec(0, 0)));
    assert!(!within_tolerance(Err(EvalError::Overflow), &dec(0, 0)));
}

#[test]
fn render_leaf_has_one_fractional_digit() {
    assert_eq!(render(&leaf(60, 1)), "6.0");
    assert_eq!(render(&leaf(-5, 1)), "-0.5");
    assert_eq!(render(&leaf(499, 1)), "49.9");
    assert_eq!(render(&leaf(0, 1)), "0.0");
    assert_eq!(render(&leaf(12, 0)), "12.0");
    assert_eq!(render(&leaf(-1234, 1)), "-123.4");
}

#[test]
fn render_decimal_rounds_to_the_nearest_tenth() {
    assert_eq!(render_decimal(&dec(124, 2)), "1.2");
    assert_eq!(render_decimal(&dec(126, 2)), "1.3");
    assert_eq!(render_decimal(&dec(-4915, 2)), "-49.2");
    assert_eq!(render_decimal(&dec(9996, 3)), "10.0");
    // a tie goes to the even tenth
    assert_eq!(render_decimal(&dec(25, 2)), "0.2");
    assert_eq!(render_decimal(&dec(35, 2)), "0.4");
    assert_eq!(render_decimal(&dec(1250, 3)), "1.2");
    assert_eq!(render_decimal(&dec(1251, 3)), "1.3");
    // a negative number keeps its sign where it rounds to zero
    assert_eq!(render_decimal(&dec(-4, 2)), "-0.0");
}

#[test]
fn render_joins_operands_with_the_sign() {
    assert_eq!(render(&node(DoubleOperator::Add, leaf(15, 1), leaf(-3, 1))), "1.5+-0.3");
    assert_eq!(render(&node(DoubleOperator::Subtract, leaf(15, 1), leaf(3, 1))), "1.5-0.3");
    assert_eq!(render(&node(DoubleOperator::Multiply, leaf(2, 1), leaf(60, 1))), "0.2×6.0");
}

#[test]
fn render_brackets_both_operands_of_a_division() {
    assert_eq!(render(&node(DoubleOperator::Divide, leaf(15, 1), leaf(3, 1))), "(1.5)÷(0.3)");
    let nested = node(
        DoubleOperator::Add,
        node(DoubleOperator::Divide, leaf(15, 1), leaf(3, 1)),
        node(DoubleOperator::Multiply, leaf(20, 1), leaf(5, 1)),
    );
    assert_eq!(render(&nested), "(1.5)÷(0.3)+2.0×0.5");
    let outer = node(
        DoubleOperator::Divide,
        node(DoubleOperator::Subtract, leaf(10, 1), leaf(25, 1)),
        leaf(-3, 1),
    );
    assert_eq!(render(&outer), "(1.0-2.5)÷(-0.3)");
}

#[test]
fn measure_doubles_the_product_of_the_operands() {
    // a leaf counts by the larger of digits and power of ten
    assert_eq!(measure(&leaf(15, 1)), Some(15));
    assert_eq!(measure(&leaf(-3, 1)), Some(10));
    assert_eq!(measure(&leaf(7, 0)), Some(7));
    assert_eq!(measure(&leaf(0, 0)), Some(1));
    assert_eq!(measure(&leaf(i64::MIN, 0)), Some(1u128 << 63));
    assert_eq!(measure(&node(DoubleOperator::Divide, leaf(15, 1), leaf(3, 1))), Some(300));
    let nested = node(
        DoubleOperator::Add,
        node(DoubleOperator::Divide, leaf(15, 1), leaf(3, 1)),
        leaf(-4915, 2),
    );
    assert_eq!(measure(&nested), Some(2 * 300 * 4915));
}

#[test]
fn measure_has_nothing_beyond_the_range() {
    let big = || leaf(i64::MAX, 0);
    // 2 * (2^63 - 1)^2 is just below 2^127
    let pair = node(DoubleOperator::Multiply, big(), big());
    assert_eq!(measure(&pair), Some(2 * (i64::MAX as u128) * (i64::MAX as u128)));
    let least = || leaf(i64::MIN, 0);
    // 2 * (2^63)^2 is 2^127
    assert_eq!(measure(&node(DoubleOperator::Multiply, least(), least())), None);
    let four = node(
        DoubleOperator::Multiply,
        node(DoubleOperator::Multiply, big(), big()),
        node(DoubleOperator::Multiply, big(), big()),
    );
    assert_eq!(measure(&four), None);
    assert_eq!(measure(&node(DoubleOperator::Add, leaf(1, 1), four)), None);
}
