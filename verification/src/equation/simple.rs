//! The simple equation: one operator over two small integers.

use vstd::prelude::*;
use vstd::string::StringExecFns;
use crate::decimal::{Fraction, Ratio};
use crate::equation::render::{append_int, int_text};
use crate::equation::{Equation, EvalError};
use crate::random::random_below;

verus! {

/// The operator of a simple equation.
#[derive(Clone, Copy, Debug, PartialEq, Eq, Structural)]
pub enum BasicOperator {
    Multiply,
    Add,
    Subtract,
}

impl BasicOperator {
    /// The result of the operator on two integers.
    pub open spec fn apply(self, left: int, right: int) -> int {
        match self {
            BasicOperator::Multiply => left * right,
            BasicOperator::Add => left + right,
            BasicOperator::Subtract => left - right,
        }
    }

    /// The sign the operator is written with.
    pub open spec fn sign(self) -> Seq<char> {
        match self {
            BasicOperator::Multiply => seq!['×'],
            BasicOperator::Add => seq!['+'],
            BasicOperator::Subtract => seq!['-'],
        }
    }

    /// The operator at an index from zero to two: multiplication, addition,
    /// subtraction.
    pub fn from_index(index: i32) -> (r: BasicOperator)
        requires
            0 <= index < 3,
        ensures
            index == 0 ==> r == BasicOperator::Multiply,
            index == 1 ==> r == BasicOperator::Add,
            index == 2 ==> r == BasicOperator::Subtract,
    {
        if index == 0 {
            BasicOperator::Multiply
        } else if index == 1 {
            BasicOperator::Add
        } else {
            BasicOperator::Subtract
        }
    }

    /// The rank of the operator in the order of operations: one for
    /// multiplication, zero for addition and subtraction.
    pub fn operation_order(&self) -> (r: i32)
        ensures
            r == if *self == BasicOperator::Multiply {
                1int
            } else {
                0int
            },
    {
        match self {
            BasicOperator::Add => 0,
            BasicOperator::Subtract => 0,
            BasicOperator::Multiply => 1,
        }
    }

    /// Applies the operator to two integers whose result fits 32 bits.
    pub fn calc(&self, left: i32, right: i32) -> (r: i32)
        requires
            i32::MIN <= self.apply(left as int, right as int) <= i32::MAX,
        ensures
            r == self.apply(left as int, right as int),
    {
        match self {
            BasicOperator::Multiply => left * right,
            BasicOperator::Add => left + right,
            BasicOperator::Subtract => left - right,
        }
    }

    /// The sign the operator is written with, as text.
    pub fn symbol(&self) -> (r: &'static str)
        ensures
            r@ == self.sign(),
    {
        proof {
            reveal_strlit("×");
            reveal_strlit("+");
            reveal_strlit("-");
            assert("×"@ =~= seq!['×']);
            assert("+"@ =~= seq!['+']);
            assert("-"@ =~= seq!['-']);
        }
        match self {
            BasicOperator::Multiply => "×",
            BasicOperator::Add => "+",
            BasicOperator::Subtract => "-",
        }
    }
}

/// What a simple equation stands for.
pub struct SimpleView {
    pub operator: BasicOperator,
    pub left: int,
    pub right: int,
}

impl SimpleView {
    /// The value of the equation.
    pub open spec fn result(self) -> int {
        self.operator.apply(self.left, self.right)
    }

    /// The display text: the operands around the sign, a space on each side
    /// of it.
    pub open spec fn text(self) -> Seq<char> {
        int_text(self.left) + seq![' '] + self.operator.sign() + seq![' '] + int_text(self.right)
    }
}

/// The operator and operands of a simple equation.
#[derive(Debug, PartialEq, Eq)]
struct EquationValue {
    operator: BasicOperator,
    value_left: i32,
    value_right: i32,
}

impl EquationValue {
    fn new(operator: BasicOperator, value_left: i32, value_right: i32) -> (r: EquationValue)
        ensures
            r.operator == operator,
            r.value_left == value_left,
            r.value_right == value_right,
    {
        EquationValue { operator, value_left, value_right }
    }
}

/// An equation of one operator over two integers from -10 to 10.
#[derive(Debug, PartialEq, Eq)]
pub struct SimpleEquation {
    equation_value: EquationValue,
}

impl View for SimpleEquation {
    type V = SimpleView;

    closed spec fn view(&self) -> SimpleView {
        SimpleView {
            operator: self.equation_value.operator,
            left: self.equation_value.value_left as int,
            right: self.equation_value.value_right as int,
        }
    }
}

impl SimpleEquation {
    /// Both operands of a simple equation lie between -10 and 10.
    #[verifier::type_invariant]
    pub open spec fn wf(self) -> bool {
        -10 <= self@.left <= 10 && -10 <= self@.right <= 10
    }

    /// The equation of an operator over two operands, or nothing where an
    /// operand lies outside -10 to 10.
    pub fn new(operator: BasicOperator, left: i32, right: i32) -> (r: Option<SimpleEquation>)
        ensures
            r is Some <==> -10 <= left <= 10 && -10 <= right <= 10,
            r matches Some(e) ==> e@ == (SimpleView {
                operator,
                left: left as int,
                right: right as int,
            }),
    {
        if -10 <= left && left <= 10 && -10 <= right && right <= 10 {
            Some(SimpleEquation { equation_value: EquationValue::new(operator, left, right) })
        } else {
            None
        }
    }

    /// The value of the equation as an integer.
    pub fn result(&self) -> (r: i32)
        ensures
            r == self@.result(),
            -100 <= r <= 100,
    {
        proof {
            use_type_invariant(self);
            let l: int = self@.left;
            let r: int = self@.right;
            assert(-100 <= l * r <= 100) by (nonlinear_arith)
                requires
                    -10 <= l <= 10,
                    -10 <= r <= 10,
            ;
        }
        self.equation_value.operator.calc(
            self.equation_value.value_left,
            self.equation_value.value_right,
        )
    }

    /// The display text of the equation.
    pub fn render(&self) -> (r: String)
        ensures
            r@ == self@.text(),
    {
        let mut out: String = String::new();
        append_int(&mut out, self.equation_value.value_left);
        proof {
            reveal_strlit(" ");
            assert(" "@ =~= seq![' ']);
        }
        out.append(" ");
        out.append(self.equation_value.operator.symbol());
        out.append(" ");
        append_int(&mut out, self.equation_value.value_right);
        assert(out@ =~= self@.text());
        out
    }
}

impl Equation for SimpleEquation {
    open spec fn value(&self) -> Option<Ratio> {
        Some(Ratio { num: self@.result(), den: 1 })
    }

    open spec fn bound(&self) -> nat {
        100
    }

    fn calc_value(&self) -> (r: Result<Fraction, EvalError>)
        ensures
            r is Ok,
    {
        Ok(Fraction::new(self.result() as i128, 1))
    }
}

/// A new simple equation: a random operator over two random operands from
/// -10 to 10.
pub fn new_simple_equation() -> (r: SimpleEquation)
    ensures
        -10 <= r@.left <= 10,
        -10 <= r@.right <= 10,
{
    let left: i32 = random_below(-10, 11);
    let right: i32 = random_below(-10, 11);
    let operator: BasicOperator = BasicOperator::from_index(random_below(0, 3));
    SimpleEquation { equation_value: EquationValue::new(operator, left, right) }
}

} // verus!
