//! What holds of reading a calculation and of carrying it out, on every
//! input.

use vstd::prelude::*;
use crate::chars::{all_digits, all_spaces, is_digit, is_space};
use crate::decimal::decimal;
use crate::grammar::{
    lemma_preferred_is_the_split, lemma_same_start, parsable, splits, the_split, Split,
};
use crate::operation::{compose, parse, MathStringParseError, Term};
use crate::rational::{
    fits, lemma_minus, lemma_of, lemma_of_whole, lemma_over, lemma_plus, lemma_reduced_is_unique,
    lemma_times, lemma_view, lemma_whole, outcome, EvalError, Ratio, Rational,
};

verus! {

/// Every line of the grammar is read: it is never `NotParsable`, whatever the
/// size of its operands. With one of the four operators it is an operation on
/// the two numbers that its digits write, with any other symbol an invalid
/// operator.
pub proof fn lemma_parsable_is_read(s: Seq<char>)
    requires
        parsable(s),
    ensures
        parse(s) != Err::<Term, MathStringParseError>(MathStringParseError::NotParsable),
        parse(s) is Ok <==> {
            let c = s[the_split(s).operator];
            c == '+' || c == '-' || c == '*' || c == '/'
        },
        parse(s) is Err ==> parse(s) == Err::<Term, MathStringParseError>(
            MathStringParseError::InvalidOperatorError { operator: s[the_split(s).operator] },
        ),
{
}

/// A line made of white space, digits, white space, a symbol, white space,
/// digits and white space means what its operands and its symbol mean. The
/// symbol is no white space. Where it is a digit, either white space parts it
/// from the left operand or the right operand is one digit long: else the
/// left operand takes the symbol in, as in `1234`, read as `12`, `3`, `4`.
pub proof fn lemma_parse_expression(
    w0: Seq<char>,
    left: Seq<char>,
    w1: Seq<char>,
    operator: char,
    w2: Seq<char>,
    right: Seq<char>,
    w3: Seq<char>,
)
    requires
        all_spaces(w0, 0, w0.len() as int),
        all_spaces(w1, 0, w1.len() as int),
        all_spaces(w2, 0, w2.len() as int),
        all_spaces(w3, 0, w3.len() as int),
        left.len() > 0,
        right.len() > 0,
        all_digits(left, 0, left.len() as int),
        all_digits(right, 0, right.len() as int),
        !is_space(operator),
        !is_digit(operator) || w1.len() > 0 || right.len() == 1,
    ensures
        parse(w0 + left + w1 + seq![operator] + w2 + right + w3) == compose(
            decimal(left),
            operator,
            decimal(right),
        ),
{
    let s = w0 + left + w1 + seq![operator] + w2 + right + w3;
    let i0 = w0.len() as int;
    let i1 = i0 + left.len();
    let i2 = i1 + w1.len();
    let i3 = i2 + 1 + w2.len();
    let i4 = i3 + right.len();
    let p = Split { left: i0, left_end: i1, operator: i2, right: i3, right_end: i4 };
    // Each part of the line is found again at its place.
    assert forall|i: int| 0 <= i < i0 implies s[i] == w0[i] by {}
    assert forall|i: int| i0 <= i < i1 implies s[i] == left[i - i0] by {}
    assert forall|i: int| i1 <= i < i2 implies s[i] == w1[i - i1] by {}
    assert forall|i: int| i2 + 1 <= i < i3 implies s[i] == w2[i - i2 - 1] by {}
    assert forall|i: int| i3 <= i < i4 implies s[i] == right[i - i3] by {}
    assert forall|i: int| i4 <= i < s.len() implies s[i] == w3[i - i4] by {}
    // No left operand is longer. Either what follows `left` is no digit, or a
    // longer one leaves less than a symbol and a digit for the rest.
    assert forall|q: Split| splits(s, q) implies q.left_end <= p.left_end by {
        lemma_same_start(s, p, q);
        if q.left_end > i1 {
            assert(is_digit(s[i1]));
            if is_digit(operator) && w1.len() == 0 {
                assert(is_digit(s[q.right_end - 1]));
            }
        }
    }
    lemma_preferred_is_the_split(s, p);
    assert(s.subrange(i0, i1) == left);
    assert(s.subrange(i3, i4) == right);
}

/// White space around the operands and the operator changes nothing: a line
/// means what it means with all white space taken out. Where the symbol is a
/// digit, this holds of a right operand of one digit.
pub proof fn lemma_white_space_is_ignored(
    w0: Seq<char>,
    left: Seq<char>,
    w1: Seq<char>,
    operator: char,
    w2: Seq<char>,
    right: Seq<char>,
    w3: Seq<char>,
)
    requires
        all_spaces(w0, 0, w0.len() as int),
        all_spaces(w1, 0, w1.len() as int),
        all_spaces(w2, 0, w2.len() as int),
        all_spaces(w3, 0, w3.len() as int),
        left.len() > 0,
        right.len() > 0,
        all_digits(left, 0, left.len() as int),
        all_digits(right, 0, right.len() as int),
        !is_space(operator),
        !is_digit(operator) || right.len() == 1,
    ensures
        parse(w0 + left + w1 + seq![operator] + w2 + right + w3) == parse(
            left + seq![operator] + right,
        ),
{
    lemma_parse_expression(w0, left, w1, operator, w2, right, w3);
    let e = Seq::<char>::empty();
    lemma_parse_expression(e, left, e, operator, e, right, e);
}

/// A line whose first or last character, white space not counted, is no
/// digit lacks an operand, and is not parsable.
pub proof fn lemma_operand_missing(s: Seq<char>, i: int)
    requires
        0 <= i < s.len(),
        !is_digit(s[i]),
        !is_space(s[i]),
        all_spaces(s, 0, i) || all_spaces(s, i + 1, s.len() as int),
    ensures
        parse(s) == Err::<Term, MathStringParseError>(MathStringParseError::NotParsable),
{
    // An operand starts the split, another one ends it; `s[i]` is part of
    // neither, and stands where nothing else can.
    assert forall|p: Split| splits(s, p) implies false by {
        if all_spaces(s, 0, i) && p.left < i {
            assert(is_space(s[p.left]));
        }
        if all_spaces(s, i + 1, s.len() as int) && i < p.right_end - 1 {
            assert(is_space(s[p.right_end - 1]));
        }
    }
}

/// A line of white space alone, or of nothing, is not parsable.
pub proof fn lemma_blank_line(s: Seq<char>)
    requires
        all_spaces(s, 0, s.len() as int),
    ensures
        parse(s) == Err::<Term, MathStringParseError>(MathStringParseError::NotParsable),
{
    // The left operand of a split is no white space.
    assert forall|p: Split| splits(s, p) implies false by {
        assert(is_digit(s[p.left]));
    }
}

/// A line with two characters that are neither digits nor white space, such
/// as two operators in a row, is not parsable.
pub proof fn lemma_second_symbol(s: Seq<char>, i: int, j: int)
    requires
        0 <= i < j < s.len(),
        !is_digit(s[i]) && !is_space(s[i]),
        !is_digit(s[j]) && !is_space(s[j]),
    ensures
        parse(s) == Err::<Term, MathStringParseError>(MathStringParseError::NotParsable),
{
    assert forall|p: Split| splits(s, p) implies false by {
        lemma_symbol_is_operator(s, p, i);
        lemma_symbol_is_operator(s, p, j);
    }
}

/// In a split, only the operator is neither a digit nor white space.
proof fn lemma_symbol_is_operator(s: Seq<char>, p: Split, i: int)
    requires
        splits(s, p),
        0 <= i < s.len(),
        !is_digit(s[i]) && !is_space(s[i]),
    ensures
        i == p.operator,
{
}

/// What a calculation of two numbers is worth when it is carried out: the
/// sum, the difference or the product as an integer, the quotient as a
/// fraction in lowest terms. A division by zero is that failure, and a number
/// or a result beyond 128 bits is an overflow; of two failures the one of the
/// left operand comes first, and the one of an operand before that of the
/// operation.
pub open spec fn worth(a: nat, operator: char, b: nat) -> Result<Ratio, EvalError> {
    let x = a as int;
    let y = b as int;
    if !fits(x) || !fits(y) {
        Err(EvalError::Overflow)
    } else if operator == '+' {
        if fits(x + y) {
            Ok(Ratio::whole(x + y))
        } else {
            Err(EvalError::Overflow)
        }
    } else if operator == '-' {
        Ok(Ratio::whole(x - y))
    } else if operator == '*' {
        if fits(x * y) {
            Ok(Ratio::whole(x * y))
        } else {
            Err(EvalError::Overflow)
        }
    } else if y == 0 {
        Err(EvalError::DivisionByZero)
    } else {
        Ok(Ratio::of(x, y))
    }
}

/// The real number that a calculation of two numbers stands for, or `None`
/// for a division by zero.
pub open spec fn correct(a: nat, operator: char, b: nat) -> Option<real> {
    if operator == '+' {
        Some(a as real + b as real)
    } else if operator == '-' {
        Some(a as real - b as real)
    } else if operator == '*' {
        Some(a as real * b as real)
    } else if b == 0 {
        None
    } else {
        Some(a as real / b as real)
    }
}

/// An operation on two numbers stands for the correct number, and carrying
/// it out gives what it is worth. Numbers up to `i64::MAX` never overflow.
pub proof fn lemma_composed(a: nat, operator: char, b: nat)
    requires
        operator == '+' || operator == '-' || operator == '*' || operator == '/',
    ensures
        compose(a, operator, b) is Ok,
        compose(a, operator, b)->Ok_0.exact() == correct(a, operator, b),
        compose(a, operator, b)->Ok_0.value() == worth(a, operator, b),
        a <= i64::MAX && b <= i64::MAX ==> worth(a, operator, b) != Err::<Ratio, EvalError>(
            EvalError::Overflow,
        ),
{
    reveal_with_fuel(Term::value, 2);
    reveal_with_fuel(Term::exact, 2);
    if fits(a as int) && fits(b as int) {
        lemma_whole(a as int, b as int);
    }
    if a <= i64::MAX && b <= i64::MAX {
        assert(fits((a as int) * (b as int))) by (nonlinear_arith)
            requires
                0 <= a <= i64::MAX,
                0 <= b <= i64::MAX,
        ;
    }
}

/// Every calculation of two operands, written in digits with one space on
/// either side of one of the four operators, is read as that operation on
/// the two numbers; it stands for the correct number, and carrying it out
/// gives what it is worth.
pub proof fn lemma_calculation(left: Seq<char>, operator: char, right: Seq<char>)
    requires
        left.len() > 0,
        right.len() > 0,
        all_digits(left, 0, left.len() as int),
        all_digits(right, 0, right.len() as int),
        operator == '+' || operator == '-' || operator == '*' || operator == '/',
    ensures
        ({
            let line = left + seq![' ', operator, ' '] + right;
            let a = decimal(left);
            let b = decimal(right);
            &&& parse(line) == compose(a, operator, b)
            &&& parse(line) is Ok
            &&& parse(line)->Ok_0.exact() == correct(a, operator, b)
            &&& parse(line)->Ok_0.value() == worth(a, operator, b)
        }),
{
    let line = left + seq![' ', operator, ' '] + right;
    let blank = seq![' '];
    let e = Seq::<char>::empty();
    lemma_parse_expression(e, left, blank, operator, blank, right, e);
    assert(e + left + blank + seq![operator] + blank + right + e == line);
    lemma_composed(decimal(left), operator, decimal(right));
}

/// What is worth a fraction is worth the correct one: its value is the number
/// that the calculation stands for.
pub proof fn lemma_worth_is_correct(a: nat, operator: char, b: nat)
    requires
        operator == '+' || operator == '-' || operator == '*' || operator == '/',
        worth(a, operator, b) is Ok,
    ensures
        worth(a, operator, b)->Ok_0.reduced(),
        correct(a, operator, b) == Some(worth(a, operator, b)->Ok_0.value()),
{
    lemma_composed(a, operator, b);
    lemma_execute_is_exact(compose(a, operator, b)->Ok_0);
}

/// A result of `execute` is exact: a fraction in lowest terms whose value is
/// the real number that the calculation stands for. And where `execute`
/// reports a division by zero, the calculation has no value.
pub proof fn lemma_execute_is_exact(op: Term)
    ensures
        op.value() matches Ok(q) ==> {
            &&& q.reduced()
            &&& fits(q.num)
            &&& fits(q.den)
            &&& op.exact() == Some(q.value())
        },
        op.value() == Err::<Ratio, EvalError>(EvalError::DivisionByZero) ==> op.exact() is None,
    decreases op,
{
    match op {
        Term::Number(n) => {
            lemma_of_whole(n as int);
            lemma_of(n as int, 1);
        },
        Term::Addition(left, right) => {
            lemma_execute_is_exact(*left);
            lemma_execute_is_exact(*right);
            if op.value() is Ok {
                lemma_plus(left.value()->Ok_0, right.value()->Ok_0);
            }
        },
        Term::Subtraction(left, right) => {
            lemma_execute_is_exact(*left);
            lemma_execute_is_exact(*right);
            if op.value() is Ok {
                lemma_minus(left.value()->Ok_0, right.value()->Ok_0);
            }
        },
        Term::Multiplication(left, right) => {
            lemma_execute_is_exact(*left);
            lemma_execute_is_exact(*right);
            if op.value() is Ok {
                lemma_times(left.value()->Ok_0, right.value()->Ok_0);
            }
        },
        Term::Division(left, right) => {
            lemma_execute_is_exact(*left);
            lemma_execute_is_exact(*right);
            if left.value() is Ok && right.value() is Ok {
                lemma_over(left.value()->Ok_0, right.value()->Ok_0);
            }
        },
    }
}

/// Results are canonical: two calculations that stand for the same number
/// and both have a result have the same result.
pub proof fn lemma_equal_values_equal_results(first: Term, second: Term)
    requires
        first.value() is Ok,
        second.value() is Ok,
        first.exact() == second.exact(),
    ensures
        first.value() == second.value(),
{
    lemma_execute_is_exact(first);
    lemma_execute_is_exact(second);
    lemma_reduced_is_unique(first.value()->Ok_0, second.value()->Ok_0);
}

/// Evaluation is pure: two results of `execute` on one calculation are equal.
pub proof fn lemma_execute_is_pure(
    op: Term,
    first: Result<Rational, EvalError>,
    second: Result<Rational, EvalError>,
)
    requires
        outcome(first) == op.value(),
        outcome(second) == op.value(),
    ensures
        first == second,
{
    if first is Ok {
        lemma_view(first->Ok_0, second->Ok_0);
    }
}

} // verus!
