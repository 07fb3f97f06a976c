use number_pain::decimal::Decimal;
use number_pain::equation::factor::scale_target;
use number_pain::equation::medium::{
    build, build_finite, build_sums, can_build, try_build, invert_add, invert_divide, invert_multiply, invert_subtract, new_complex_equation,
    new_medium_equation, sample_signed_tenth, sample_small_nonzero, signed_tenth, EquationValue,
    BOUND_LIMIT, CANDIDATE_LIMIT,
};
use number_pain::equation::tree::{
    compare_value, evaluate, measure, DoubleOperator, EquationTree,
};
use number_pain::equation::Equation;

fn dec(digits: i64, scale: u32) -> Decimal {
    Decimal::new(digits, scale).unwrap()
}

/// The depth of every leaf, where all leaves agree on it.
fn uniform_depth(tree: &EquationTree) -> Option<u32> {
    match tree {
        EquationTree::Leaf(_) => Some(0),
        EquationTree::BinaryNode(_, left, right) => {
            let l = uniform_depth(left)?;
            let r = uniform_depth(right)?;
            if l == r {
                Some(l + 1)
            } else {
                None
            }
        }
    }
}

fn only_sums_and_quotients(tree: &EquationTree) -> bool {
    match tree {
        EquationTree::Leaf(_) => true,
        EquationTree::BinaryNode(op, left, right) => {
            matches!(op, DoubleOperator::Add | DoubleOperator::Divide)
                && only_sums_and_quotients(left)
                && only_sums_and_quotients(right)
        }
    }
}

fn leaf_value(tree: &EquationTree) -> Decimal {
    match tree {
        EquationTree::Leaf(d) => *d,
        EquationTree::BinaryNode(..) => panic!("not a leaf"),
    }
}

#[test]
fn signed_tenth_shifts_the_draw_by_five_hundred() {
    assert_eq!(signed_tenth(0), dec(-500, 1));
    assert_eq!(signed_tenth(500), dec(0, 1));
    assert_eq!(signed_tenth(999), dec(499, 1));
    assert_eq!(signed_tenth(437), dec(-63, 1));
}

#[test]
fn sample_signed_tenth_stays_in_range_and_varies() {
    let first = sample_signed_tenth();
    let mut varied = false;
    for _ in 0..500 {
        let d = sample_signed_tenth();
        assert_eq!(d.scale(), 1);
        assert!(-500 <= d.digits() && d.digits() < 500);
        varied = varied || d != first;
    }
    assert!(varied);
}

#[test]
fn sample_small_nonzero_stays_in_range_and_varies() {
    let first = sample_small_nonzero(50, 1);
    let mut varied = false;
    for _ in 0..500 {
        let d = sample_small_nonzero(50, 1);
        assert_eq!(d.scale(), 1);
        assert!(-50 <= d.digits() && d.digits() < 50);
        varied = varied || d != first;
    }
    assert!(varied);
    let fine = sample_small_nonzero(3, 4);
    assert_eq!(fine.scale(), 4);
    assert!(-3 <= fine.digits() && fine.digits() < 3);
}

#[test]
fn invert_add_gives_what_is_missing_to_the_target() {
    // 5.0 = 1.2 + 3.8
    assert_eq!(invert_add(&dec(50, 1), &dec(12, 1)), Some((dec(12, 1), dec(38, 1))));
    // 0.75 = 49.9 + -49.15
    assert_eq!(invert_add(&dec(75, 2), &dec(499, 1)), Some((dec(499, 1), dec(-4915, 2))));
    assert_eq!(invert_add(&dec(i64::MIN, 1), &dec(1, 1)), None);
}

#[test]
fn invert_subtract_adds_the_filler_to_the_target() {
    // target 5.0, filler 1.2: the right operand is 6.2
    assert_eq!(invert_subtract(&dec(50, 1), &dec(12, 1)), Some((dec(12, 1), dec(62, 1))));
    let (left, right) = invert_subtract(&dec(50, 1), &dec(12, 1)).unwrap();
    let tree = EquationTree::BinaryNode(
        DoubleOperator::Subtract,
        Box::new(EquationTree::Leaf(left)),
        Box::new(EquationTree::Leaf(right)),
    );
    // the node then evaluates to the target negated
    let f = evaluate(&tree).unwrap();
    assert_eq!(f.num() * 10, -50 * f.den());
    assert_eq!(invert_subtract(&dec(i64::MAX, 1), &dec(1, 1)), None);
}

#[test]
fn invert_divide_multiplies_the_target_by_the_divisor() {
    // divisor 0.3, target 5.0: the dividend is 1.50
    let (left, right) = invert_divide(&dec(50, 1), &dec(3, 1)).unwrap();
    assert_eq!(left, dec(150, 2));
    assert_eq!(right, dec(3, 1));
    let tree = EquationTree::BinaryNode(
        DoubleOperator::Divide,
        Box::new(EquationTree::Leaf(left)),
        Box::new(EquationTree::Leaf(right)),
    );
    let f = evaluate(&tree).unwrap();
    assert_eq!(f.num(), 5 * f.den());
    assert!(compare_value(&tree, &dec(50, 1)));
}

#[test]
fn invert_divide_refuses_a_zero_divisor() {
    assert_eq!(invert_divide(&dec(50, 1), &dec(0, 1)), None);
    assert_eq!(invert_divide(&dec(i64::MAX, 1), &dec(3, 1)), None);
    assert_eq!(invert_divide(&dec(5, 18), &dec(3, 1)), None);
}

#[test]
fn invert_multiply_picks_a_factor_pair() {
    for _ in 0..100 {
        let (left, right) = invert_multiply(&dec(120, 1)).unwrap();
        assert_eq!((left.scale(), right.scale()), (1, 1));
        assert_eq!(left.digits() * right.digits(), 120);
        assert!(left.digits().abs() <= right.digits().abs());
        let (left, right) = invert_multiply(&dec(-164, 1)).unwrap();
        assert_eq!(left.digits() * right.digits(), -164);
    }
}

#[test]
fn invert_multiply_reaches_every_pair() {
    let mut seen = std::collections::BTreeSet::new();
    for _ in 0..2000 {
        let (left, _) = invert_multiply(&dec(120, 1)).unwrap();
        seen.insert(left.digits().abs());
    }
    assert_eq!(seen.into_iter().collect::<Vec<i64>>(), vec![1, 2, 3, 4, 5, 6, 8, 10]);
}

#[test]
fn invert_multiply_has_nothing_for_zero() {
    assert_eq!(invert_multiply(&dec(0, 1)), None);
    assert_eq!(invert_multiply(&dec(-4, 2)), None);
}

#[test]
fn build_depth_zero_is_the_leaf_of_the_target() {
    for digits in [-500i64, -63, 0, 1, 499] {
        let target = dec(digits, 1);
        let tree = build(&target, 0);
        assert_eq!(tree, EquationTree::Leaf(target));
        let f = evaluate(&tree).unwrap();
        assert_eq!((f.num(), f.den()), (digits as i128, 10));
    }
    assert_eq!(build(&dec(1234, 3), 0), EquationTree::Leaf(dec(1234, 3)));
}

#[test]
fn build_puts_every_leaf_at_the_depth() {
    for depth in 1..=4u32 {
        for digits in [-500i64, -164, 0, 7, 120, 499] {
            for _ in 0..20 {
                let tree = build(&dec(digits, 1), depth);
                assert_eq!(uniform_depth(&tree), Some(depth));
            }
        }
    }
}

#[test]
fn build_inverts_one_level_by_the_rule_of_its_operator() {
    let mut seen = [false; 4];
    for _ in 0..400 {
        let target = dec(120, 1);
        let tree = build(&target, 1);
        let (op, left, right) = match &tree {
            EquationTree::BinaryNode(op, left, right) => (*op, leaf_value(left), leaf_value(right)),
            EquationTree::Leaf(_) => panic!("depth one gives a node"),
        };
        match op {
            DoubleOperator::Add => {
                seen[0] = true;
                assert_eq!(invert_add(&target, &left), Some((left, right)));
                assert!(-500 <= left.digits() && left.digits() < 500 && left.scale() == 1);
            }
            DoubleOperator::Subtract => {
                seen[1] = true;
                assert_eq!(invert_subtract(&target, &left), Some((left, right)));
                assert!(-500 <= left.digits() && left.digits() < 500 && left.scale() == 1);
            }
            DoubleOperator::Multiply => {
                seen[2] = true;
                assert_eq!(left.digits() * right.digits(), 120);
                assert_eq!((left.scale(), right.scale()), (1, 1));
            }
            DoubleOperator::Divide => {
                seen[3] = true;
                assert_eq!(invert_divide(&target, &right), Some((left, right)));
                assert!(-50 <= right.digits() && right.digits() < 50 && right.digits() != 0);
            }
        }
    }
    assert_eq!(seen, [true; 4]);
}

#[test]
fn build_of_sums_and_quotients_evaluates_to_the_target() {
    let mut checked = 0;
    for _ in 0..2000 {
        let target = sample_signed_tenth();
        let tree = build(&target, 2);
        if only_sums_and_quotients(&tree) {
            let f = evaluate(&tree).unwrap();
            assert_eq!(f.num() * 10, target.digits() as i128 * f.den());
            assert!(compare_value(&tree, &target));
            checked += 1;
        }
    }
    assert!(checked > 0);
}

#[test]
fn build_never_multiplies_a_target_without_factors() {
    // zero has no factor pairs, so the node falls back to an addition
    for _ in 0..300 {
        match build(&dec(0, 1), 1) {
            EquationTree::BinaryNode(op, _, _) => assert_ne!(op, DoubleOperator::Multiply),
            EquationTree::Leaf(_) => panic!("depth one gives a node"),
        }
    }
    assert_eq!(scale_target(&dec(0, 1), 1), 0);
}

#[test]
fn build_never_divides_by_zero_at_the_leaves() {
    for _ in 0..2000 {
        if let EquationTree::BinaryNode(DoubleOperator::Divide, _, right) = build(&dec(73, 1), 1) {
            assert_ne!(leaf_value(&right).digits(), 0);
        }
    }
}

#[test]
fn new_medium_equation_has_one_operator() {
    for _ in 0..200 {
        let equation = new_medium_equation();
        let text = equation.render();
        let signs = text.chars().filter(|c| "+×÷".contains(*c)).count();
        // a subtraction shares its sign with negative operands, so it is
        // recognised by the lack of any other operator
        assert!(signs <= 1);
        assert_eq!(text.matches('.').count(), 2);
        // with leaves for operands the value is always finite
        let value = equation.calc_value().unwrap();
        assert!(value.den() > 0);
    }
}

#[test]
fn new_complex_equation_has_four_or_eight_leaves() {
    let mut leaves = std::collections::BTreeSet::new();
    for _ in 0..200 {
        let equation = new_complex_equation();
        leaves.insert(equation.render().matches('.').count());
    }
    assert_eq!(leaves.into_iter().collect::<Vec<usize>>(), vec![4, 8]);
}

#[test]
fn equation_value_shows_evaluates_and_grades() {
    let tree = EquationTree::BinaryNode(
        DoubleOperator::Divide,
        Box::new(EquationTree::Leaf(dec(15, 1))),
        Box::new(EquationTree::Leaf(dec(3, 1))),
    );
    let equation = EquationValue::new(tree);
    assert_eq!(equation.render(), "(1.5)÷(0.3)");
    let value = equation.calc_value().unwrap();
    assert_eq!(value.num(), 5 * value.den());
    assert!(equation.compare_value(&dec(50, 1)));
    assert!(equation.compare_value(&dec(50005, 4)));
    assert!(!equation.compare_value(&dec(501, 2)));
}

#[test]
fn can_build_knows_the_room_a_target_needs() {
    // depth zero asks for nothing
    assert!(can_build(&dec(499, 1), 0));
    assert!(can_build(&dec(1, 18), 0));
    assert!(can_build(&dec(i64::MIN, 0), 0));
    // filler values leave room for nine levels
    assert!(can_build(&dec(-500, 1), 3));
    assert!(can_build(&dec(-500, 1), 9));
    assert!(!can_build(&dec(-500, 1), 10));
    // every level multiplies the room a target needs by fifty
    assert!(can_build(&dec(i64::MAX / 50 - 500, 1), 1));
    assert!(!can_build(&dec(i64::MAX / 50 - 499, 1), 1));
    assert!(!can_build(&dec(i64::MAX / 50 - 500, 1), 2));
    // a filler value is added at the scale of the target
    assert!(can_build(&dec(1, 15), 1));
    assert!(!can_build(&dec(1, 15), 2));
    assert!(!can_build(&dec(1, 17), 1));
    // a whole number is taken in tenths
    assert!(can_build(&dec(7, 0), 3));
    assert!(!can_build(&dec(i64::MAX / 500, 0), 1));
    assert!(can_build(&dec(i64::MAX / 500 - 50, 0), 1));
}

#[test]
fn try_build_builds_where_there_is_room() {
    let tree = try_build(&dec(73, 1), 2).unwrap();
    assert_eq!(uniform_depth(&tree), Some(2));
    assert_eq!(try_build(&dec(73, 1), 0), Some(EquationTree::Leaf(dec(73, 1))));
    assert_eq!(try_build(&dec(73, 1), 19), None);
    assert_eq!(try_build(&dec(i64::MAX, 1), 1), None);
}

fn only_sums(tree: &EquationTree) -> bool {
    match tree {
        EquationTree::Leaf(_) => true,
        EquationTree::BinaryNode(op, left, right) => {
            *op == DoubleOperator::Add && only_sums(left) && only_sums(right)
        }
    }
}

fn largest_leaf(tree: &EquationTree) -> i64 {
    match tree {
        EquationTree::Leaf(d) => d.digits().abs(),
        EquationTree::BinaryNode(_, left, right) => largest_leaf(left).max(largest_leaf(right)),
    }
}

#[test]
fn build_sums_adds_up_to_the_target() {
    for depth in 0..=3u32 {
        for digits in [-500i64, -1, 0, 73, 499] {
            for _ in 0..50 {
                let tree = build_sums(&dec(digits, 1), depth);
                assert_eq!(uniform_depth(&tree), Some(depth));
                assert!(only_sums(&tree));
                assert!(largest_leaf(&tree) <= 2000);
                let f = evaluate(&tree).unwrap();
                assert_eq!(f.num() * 10, digits as i128 * f.den());
                assert!(measure(&tree).unwrap() <= BOUND_LIMIT);
            }
        }
    }
    assert_eq!(build_sums(&dec(2000, 1), 0), EquationTree::Leaf(dec(2000, 1)));
}

#[test]
fn build_finite_always_has_a_value() {
    for depth in 1..=3u32 {
        for _ in 0..3000 {
            let tree = build_finite(depth);
            assert_eq!(uniform_depth(&tree), Some(depth));
            assert!(measure(&tree).unwrap() <= BOUND_LIMIT);
            let f = evaluate(&tree).unwrap();
            assert!(f.den() > 0);
        }
    }
}

#[test]
fn new_equations_always_have_a_value() {
    for _ in 0..5000 {
        assert!(new_complex_equation().calc_value().is_ok());
        assert!(new_medium_equation().calc_value().is_ok());
    }
}

#[test]
fn limits_leave_room_for_the_comparison() {
    assert_eq!(BOUND_LIMIT, 24 * 10u128.pow(24));
    assert_eq!(CANDIDATE_LIMIT, 3 * 10u128.pow(9));
    assert!(2000 * BOUND_LIMIT * CANDIDATE_LIMIT <= i128::MAX as u128);
}

#[test]
fn new_equations_grade_their_own_value() {
    for _ in 0..2000 {
        let equation = new_complex_equation();
        let value = equation.calc_value().unwrap();
        // the value in thousandths, rounded down, is less than a thousandth
        // below the value
        let thousandths = (value.num() * 1000).div_euclid(value.den());
        let near = Decimal::new(thousandths as i64, 3).unwrap();
        assert!(equation.compare_value(&near));
        let far = Decimal::new(thousandths as i64 + 2, 3).unwrap();
        assert!(!equation.compare_value(&far));
        let below = Decimal::new(thousandths as i64 - 1, 3).unwrap();
        assert!(!equation.compare_value(&below));
    }
}
