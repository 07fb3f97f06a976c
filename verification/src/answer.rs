//! Reading a typed answer as an exact decimal.
//!
//! An answer is an optional sign, digits, and optionally a point followed by
//! more digits, with at least one digit in all: `7`, `-0.5`, `+12.25`, `.5`,
//! `3.`. Anything else is no answer.

use vstd::prelude::*;
use vstd::string::StrSliceExecFns;
use crate::decimal::{Decimal, DecimalView, MAX_SCALE};

verus! {

/// Whether a character is a decimal digit.
pub open spec fn is_digit(c: char) -> bool {
    '0' <= c && c <= '9'
}

/// The number a digit stands for.
pub open spec fn digit_value(c: char) -> nat {
    (c as int - '0' as int) as nat
}

/// Whether a text holds digits only.
pub open spec fn all_digits(s: Seq<char>) -> bool {
    forall|i: int| 0 <= i < s.len() ==> is_digit(#[trigger] s[i])
}

/// The number that a text of digits writes; zero for the empty text.
pub open spec fn digits_value(s: Seq<char>) -> nat
    decreases s.len(),
{
    if s.len() == 0 {
        0
    } else {
        10 * digits_value(s.drop_last()) + digit_value(s.last())
    }
}

/// Whether the text starts with a sign.
pub open spec fn has_sign(text: Seq<char>) -> bool {
    text.len() > 0 && (text[0] == '-' || text[0] == '+')
}

/// The text after its sign, where it has one.
pub open spec fn unsigned(text: Seq<char>) -> Seq<char> {
    if has_sign(text) {
        text.drop_first()
    } else {
        text
    }
}

/// The place of the first point in a text, or its length where it has none.
pub open spec fn point_of(body: Seq<char>) -> int
    decreases body.len(),
{
    if body.len() == 0 || body[0] == '.' {
        0
    } else {
        1 + point_of(body.drop_first())
    }
}

/// The text before the first point.
pub open spec fn whole_part(body: Seq<char>) -> Seq<char> {
    body.subrange(0, point_of(body))
}

/// The text after the first point; empty where there is none.
pub open spec fn fraction_part(body: Seq<char>) -> Seq<char> {
    if point_of(body) < body.len() {
        body.subrange(point_of(body) + 1, body.len() as int)
    } else {
        Seq::empty()
    }
}

/// The decimal that a text writes, where it is an answer that a decimal can
/// hold: at most eighteen digits after the point, and a magnitude within
/// sixty-three bits.
pub open spec fn parsed(text: Seq<char>) -> Option<DecimalView> {
    let body = unsigned(text);
    let digits = whole_part(body) + fraction_part(body);
    if all_digits(digits) && digits.len() > 0 && fraction_part(body).len() <= MAX_SCALE
        && digits_value(digits) <= i64::MAX {
        Some(
            DecimalView {
                digits: if text[0] == '-' {
                    -(digits_value(digits) as int)
                } else {
                    digits_value(digits) as int
                },
                scale: fraction_part(body).len(),
            },
        )
    } else {
        None
    }
}

/// The first point lies within the text, with no point before it.
pub proof fn lemma_point_of(body: Seq<char>)
    ensures
        0 <= point_of(body) <= body.len(),
        point_of(body) < body.len() ==> body[point_of(body)] == '.',
        forall|j: int| 0 <= j < point_of(body) ==> #[trigger] body[j] != '.',
    decreases body.len(),
{
    if body.len() > 0 && body[0] != '.' {
        let rest = body.drop_first();
        lemma_point_of(rest);
        assert forall|j: int| 0 <= j < point_of(body) implies #[trigger] body[j] != '.' by {
            if j > 0 {
                assert(body[j] == rest[j - 1]);
            }
        }
    }
}

/// A place that holds a point, or the end of the text, with no point before
/// it, is the place of the first point.
pub proof fn lemma_point_is(body: Seq<char>, p: int)
    requires
        0 <= p <= body.len(),
        p < body.len() ==> body[p] == '.',
        forall|j: int| 0 <= j < p ==> #[trigger] body[j] != '.',
    ensures
        point_of(body) == p,
    decreases p,
{
    if p > 0 {
        let rest = body.drop_first();
        assert(body[0] != '.');
        assert forall|j: int| 0 <= j < p - 1 implies #[trigger] rest[j] != '.' by {
            assert(rest[j] == body[j + 1]);
        }
        lemma_point_is(rest, p - 1);
    }
}

/// One more digit multiplies the number by ten and adds the digit.
pub proof fn lemma_digits_push(s: Seq<char>, c: char)
    ensures
        digits_value(s.push(c)) == 10 * digits_value(s) + digit_value(c),
{
    assert(s.push(c).drop_last() =~= s);
}

/// The number of a text of digits is no smaller than that of any text it
/// starts with.
pub proof fn lemma_digits_grow(s: Seq<char>, k: int)
    requires
        0 <= k <= s.len(),
    ensures
        digits_value(s.subrange(0, k)) <= digits_value(s),
    decreases s.len() - k,
{
    if k < s.len() {
        lemma_digits_grow(s, k + 1);
        let longer = s.subrange(0, k + 1);
        assert(longer.drop_last() =~= s.subrange(0, k));
    } else {
        assert(s.subrange(0, k) =~= s);
    }
}

/// Appends one digit to a number, or nothing where the result leaves
/// sixty-three bits.
fn push_digit(acc: u64, c: char) -> (r: Option<u64>)
    requires
        is_digit(c),
        acc <= i64::MAX,
    ensures
        r matches Some(v) ==> v == 10 * acc + digit_value(c) && v <= i64::MAX,
        r is None ==> 10 * acc + digit_value(c) > i64::MAX,
{
    let v: u64 = (c as u32 - '0' as u32) as u64;
    if acc > (9_223_372_036_854_775_807 - v) / 10 {
        None
    } else {
        Some(acc * 10 + v)
    }
}

/// Reads a typed answer as a decimal.
///
/// The result is the decimal the text writes, digit for digit, with as many
/// fractional digits as follow the point. Nothing comes back for a text that
/// is no answer, or that a decimal cannot hold.
pub fn parse_answer(text: &str) -> (r: Option<Decimal>)
    ensures
        r is Some <==> parsed(text@) is Some,
        r matches Some(d) ==> parsed(text@) == Some(d@),
{
    let n: usize = text.unicode_len();
    let mut negative: bool = false;
    let mut start: usize = 0;
    if n > 0 {
        let first: char = text.get_char(0);
        if first == '-' {
            negative = true;
            start = 1;
        } else if first == '+' {
            start = 1;
        }
    }
    let ghost body: Seq<char> = unsigned(text@);
    let ghost digits: Seq<char> = whole_part(body) + fraction_part(body);
    proof {
        lemma_point_of(body);
        assert(body =~= text@.subrange(start as int, n as int));
    }
    let mut acc: u64 = 0;
    let mut i: usize = start;
    while i < n && text.get_char(i) != '.'
        invariant
            start <= i <= n,
            n == text@.len(),
            body == unsigned(text@),
            body == text@.subrange(start as int, n as int),
            digits == whole_part(body) + fraction_part(body),
            i - start <= point_of(body) <= body.len(),
            forall|j: int| 0 <= j < i - start ==> #[trigger] body[j] != '.',
            all_digits(digits.subrange(0, i - start)),
            acc == digits_value(digits.subrange(0, i - start)),
            acc <= i64::MAX,
        decreases n - i,
    {
        let c: char = text.get_char(i);
        let ghost k: int = i - start;
        proof {
            lemma_point_of(body);
            assert(body[k] == c);
            // no point up to and including this place
            if point_of(body) <= k {
                assert(body[point_of(body)] == '.');
            }
            assert(digits[k] == c);
            assert(digits.subrange(0, k + 1) =~= digits.subrange(0, k).push(c));
            lemma_digits_push(digits.subrange(0, k), c);
            lemma_digits_grow(digits, k + 1);
        }
        if !(c >= '0' && c <= '9') {
            return None;
        }
        match push_digit(acc, c) {
            Some(v) => {
                acc = v;
            },
            None => {
                return None;
            },
        }
        i = i + 1;
    }
    let point: usize = i;
    proof {
        lemma_point_is(body, point - start);
    }
    let scale: usize = if point < n {
        n - point - 1
    } else {
        0
    };
    assert(scale == fraction_part(body).len());
    if scale > 18 {
        return None;
    }
    if point < n {
        i = point + 1;
    }
    let ghost whole: int = point - start;
    let ghost mut done: int = whole;
    while i < n
        invariant
            start <= point <= i <= n,
            n == text@.len(),
            body == unsigned(text@),
            body == text@.subrange(start as int, n as int),
            digits == whole_part(body) + fraction_part(body),
            point_of(body) == point - start,
            whole == point - start,
            digits.len() == whole + scale,
            scale == fraction_part(body).len(),
            scale == if point < n {
                n - point - 1
            } else {
                0
            },
            point < n ==> point < i && done == whole + (i - point - 1),
            point == n ==> done == whole,
            0 <= done <= digits.len(),
            all_digits(digits.subrange(0, done)),
            acc == digits_value(digits.subrange(0, done)),
            acc <= i64::MAX,
        decreases n - i,
    {
        let c: char = text.get_char(i);
        proof {
            assert(body[i - start] == c);
            assert(whole_part(body).len() == whole);
            assert(fraction_part(body)[i - point - 1] == body[i - start]);
            assert(digits[done] == c);
            assert(digits.subrange(0, done + 1) =~= digits.subrange(0, done).push(c));
            lemma_digits_push(digits.subrange(0, done), c);
            lemma_digits_grow(digits, done + 1);
        }
        if !(c >= '0' && c <= '9') {
            return None;
        }
        match push_digit(acc, c) {
            Some(v) => {
                acc = v;
            },
            None => {
                return None;
            },
        }
        i = i + 1;
        proof {
            done = done + 1;
        }
    }
    proof {
        assert(done == digits.len());
        assert(digits.subrange(0, done) =~= digits);
    }
    if n - start == 0 || (point < n && n - start == 1) {
        return None;
    }
    let value: i64 = if negative {
        -(acc as i64)
    } else {
        acc as i64
    };
    Decimal::new(value, scale as u32)
}

} // verus!
