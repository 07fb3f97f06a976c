//! The display text of decimals and equation trees.

use vstd::prelude::*;
use vstd::string::StringExecFns;
use crate::decimal::{magnitude, pow10, pow10_exec, Decimal, DecimalView};
use crate::equation::tree::{DoubleOperator, EquationTree};

verus! {

/// The character of a decimal digit.
pub open spec fn digit_char(d: nat) -> char {
    if d == 0 {
        '0'
    } else if d == 1 {
        '1'
    } else if d == 2 {
        '2'
    } else if d == 3 {
        '3'
    } else if d == 4 {
        '4'
    } else if d == 5 {
        '5'
    } else if d == 6 {
        '6'
    } else if d == 7 {
        '7'
    } else if d == 8 {
        '8'
    } else {
        '9'
    }
}

/// The decimal digits of a natural number, without leading zeros.
pub open spec fn nat_text(n: nat) -> Seq<char>
    decreases n,
{
    if n < 10 {
        seq![digit_char(n)]
    } else {
        nat_text(n / 10).push(digit_char(n % 10))
    }
}

/// The quotient `n / d` rounded to the nearest integer, a tie going to the
/// even neighbour.
pub open spec fn round_half_even(n: nat, d: nat) -> nat {
    let q = n / d;
    let r = n % d;
    if 2 * r > d || (2 * r == d && q % 2 == 1) {
        q + 1
    } else {
        q
    }
}

/// The magnitude of a decimal in tenths, rounded to the nearest tenth.
pub open spec fn rounded_tenths(d: DecimalView) -> nat {
    if d.scale == 0 {
        magnitude(d.digits) * 10
    } else {
        round_half_even(magnitude(d.digits), pow10((d.scale - 1) as nat))
    }
}

/// The text of a decimal with exactly one fractional digit. A negative
/// number keeps its sign even where it rounds to zero.
pub open spec fn decimal_text(d: DecimalView) -> Seq<char> {
    let t = rounded_tenths(d);
    let sign = if d.digits < 0 {
        seq!['-']
    } else {
        Seq::<char>::empty()
    };
    sign + nat_text(t / 10) + seq!['.', digit_char(t % 10)]
}

impl EquationTree {
    /// The display text of the tree. A division brackets both operands; the
    /// other operators join theirs without brackets.
    pub open spec fn text(self) -> Seq<char>
        decreases self,
    {
        match self {
            EquationTree::Leaf(d) => decimal_text(d@),
            EquationTree::BinaryNode(op, left, right) => match op {
                DoubleOperator::Add => left.text() + seq!['+'] + right.text(),
                DoubleOperator::Subtract => left.text() + seq!['-'] + right.text(),
                DoubleOperator::Multiply => left.text() + seq!['×'] + right.text(),
                DoubleOperator::Divide => seq!['('] + left.text() + seq![')', '÷', '(']
                    + right.text() + seq![')'],
            },
        }
    }
}

/// The one-character text of a digit.
fn digit_str(d: u128) -> (r: &'static str)
    requires
        d < 10,
    ensures
        r@ == seq![digit_char(d as nat)],
{
    proof {
        reveal_strlit("0");
        reveal_strlit("1");
        reveal_strlit("2");
        reveal_strlit("3");
        reveal_strlit("4");
        reveal_strlit("5");
        reveal_strlit("6");
        reveal_strlit("7");
        reveal_strlit("8");
        reveal_strlit("9");
    }
    let r: &'static str = if d == 0 {
        "0"
    } else if d == 1 {
        "1"
    } else if d == 2 {
        "2"
    } else if d == 3 {
        "3"
    } else if d == 4 {
        "4"
    } else if d == 5 {
        "5"
    } else if d == 6 {
        "6"
    } else if d == 7 {
        "7"
    } else if d == 8 {
        "8"
    } else {
        "9"
    };
    assert(r@ =~= seq![digit_char(d as nat)]);
    r
}

/// The text of an integer: its digits, after a minus sign where it is
/// negative.
pub open spec fn int_text(i: int) -> Seq<char> {
    if i < 0 {
        seq!['-'] + nat_text((-i) as nat)
    } else {
        nat_text(i as nat)
    }
}

/// Appends the text of an integer to `out`.
pub(crate) fn append_int(out: &mut String, i: i32)
    ensures
        final(out)@ == old(out)@ + int_text(i as int),
{
    if i < 0 {
        proof {
            reveal_strlit("-");
            assert("-"@ =~= seq!['-']);
        }
        out.append("-");
        append_nat(out, (-(i as i64)) as u128);
        assert(final(out)@ =~= old(out)@ + int_text(i as int));
    } else {
        append_nat(out, i as u128);
    }
}

/// Appends the decimal digits of `n` to `out`.
pub(crate) fn append_nat(out: &mut String, n: u128)
    ensures
        final(out)@ == old(out)@ + nat_text(n as nat),
    decreases n,
{
    if n >= 10 {
        append_nat(out, n / 10);
    }
    out.append(digit_str(n % 10));
    proof {
        if n >= 10 {
            assert(old(out)@ + nat_text((n / 10) as nat) + seq![digit_char((n % 10) as nat)]
                =~= old(out)@ + nat_text(n as nat));
        }
    }
}

/// Renders a decimal with exactly one fractional digit.
pub fn render_decimal(d: &Decimal) -> (r: String)
    ensures
        r@ == decimal_text(d@),
{
    let digits: i64 = d.digits();
    let scale: u32 = d.scale();
    let size: u128 = if digits >= 0 {
        digits as u128
    } else {
        (-(digits as i128)) as u128
    };
    let tenths: u128 = if scale == 0 {
        size * 10
    } else {
        let unit: u128 = pow10_exec(scale - 1) as u128;
        let q: u128 = size / unit;
        let rest: u128 = size % unit;
        if 2 * rest > unit || (2 * rest == unit && q % 2 == 1) {
            q + 1
        } else {
            q
        }
    };
    assert(tenths == rounded_tenths(d@));
    let mut out: String = String::new();
    if digits < 0 {
        out.append("-");
    }
    append_nat(&mut out, tenths / 10);
    out.append(".");
    out.append(digit_str(tenths % 10));
    proof {
        reveal_strlit("-");
        reveal_strlit(".");
        assert("-"@ =~= seq!['-']);
        assert("."@ =~= seq!['.']);
        assert(out@ =~= decimal_text(d@));
    }
    out
}

/// Renders a tree as its display text.
pub fn render(tree: &EquationTree) -> (r: String)
    ensures
        r@ == tree.text(),
    decreases tree,
{
    match tree {
        EquationTree::Leaf(d) => render_decimal(d),
        EquationTree::BinaryNode(op, left, right) => {
            let l: String = render(left);
            let r: String = render(right);
            let mut out: String = String::new();
            proof {
                reveal_strlit("+");
                reveal_strlit("-");
                reveal_strlit("×");
                reveal_strlit("(");
                reveal_strlit(")÷(");
                reveal_strlit(")");
                assert("+"@ =~= seq!['+']);
                assert("-"@ =~= seq!['-']);
                assert("×"@ =~= seq!['×']);
                assert("("@ =~= seq!['(']);
                assert(")÷("@ =~= seq![')', '÷', '(']);
                assert(")"@ =~= seq![')']);
            }
            match op {
                DoubleOperator::Add => {
                    out.append(l.as_str());
                    out.append("+");
                    out.append(r.as_str());
                },
                DoubleOperator::Subtract => {
                    out.append(l.as_str());
                    out.append("-");
                    out.append(r.as_str());
                },
                DoubleOperator::Multiply => {
                    out.append(l.as_str());
                    out.append("×");
                    out.append(r.as_str());
                },
                DoubleOperator::Divide => {
                    out.append("(");
                    out.append(l.as_str());
                    out.append(")÷(");
                    out.append(r.as_str());
                    out.append(")");
                },
            }
            assert(out@ =~= tree.text());
            out
        },
    }
}

} // verus!
