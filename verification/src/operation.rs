//! Calculations: what a line of text means, and what a calculation is worth.

use vstd::prelude::*;
use vstd::pervasive::unreached;
use vstd::slice::slice_subrange;
use crate::chars::{all_digits, characters, is_digit};
use crate::decimal::{decimal, Natural};
use crate::grammar::{lemma_preferred_is_the_split, parsable, scan, the_split};
use crate::laws::lemma_execute_is_exact;
use crate::rational::{fits, outcome, EvalError, Ratio, Rational};

verus! {

/// Why a line of text is no calculation.
#[derive(Debug, PartialEq, Eq, Clone, Copy)]
pub enum MathStringParseError {
    /// The line is not two operands with one symbol between them.
    NotParsable,
    /// The line has the shape of a calculation, but the symbol between the
    /// operands is none of `+`, `-`, `*` and `/`.
    InvalidOperatorError { operator: char },
}

/// A calculation: a number, or one of the four basic operations on two
/// calculations.
#[derive(Debug, PartialEq, Eq)]
pub enum Operation {
    /// A natural number, of any size.
    Number(Natural),
    /// The sum of two calculations.
    Addition { left_addend: Box<Operation>, right_addend: Box<Operation> },
    /// The minuend less the subtrahend.
    Subtraction { minuend: Box<Operation>, subtrahend: Box<Operation> },
    /// The product of two calculations.
    Multiplication { multiplicand: Box<Operation>, multiplier: Box<Operation> },
    /// The dividend over the divisor: a fraction, not a rounded quotient.
    Division { dividend: Box<Operation>, divisor: Box<Operation> },
}

/// The mathematical model of an `Operation`: the same tree, over the natural
/// numbers.
pub enum Term {
    Number(nat),
    Addition(Box<Term>, Box<Term>),
    Subtraction(Box<Term>, Box<Term>),
    Multiplication(Box<Term>, Box<Term>),
    Division(Box<Term>, Box<Term>),
}

impl Operation {
    /// The tree of the operation, with every number taken as its model.
    pub open spec fn model(self) -> Term
        decreases self,
    {
        match self {
            Operation::Number(n) => Term::Number(n@),
            Operation::Addition { left_addend, right_addend } => Term::Addition(
                Box::new(left_addend.model()),
                Box::new(right_addend.model()),
            ),
            Operation::Subtraction { minuend, subtrahend } => Term::Subtraction(
                Box::new(minuend.model()),
                Box::new(subtrahend.model()),
            ),
            Operation::Multiplication { multiplicand, multiplier } => Term::Multiplication(
                Box::new(multiplicand.model()),
                Box::new(multiplier.model()),
            ),
            Operation::Division { dividend, divisor } => Term::Division(
                Box::new(dividend.model()),
                Box::new(divisor.model()),
            ),
        }
    }
}

impl View for Operation {
    type V = Term;

    open spec fn view(&self) -> Term {
        self.model()
    }
}

/// The operation that a symbol asks for between two numbers.
pub open spec fn compose(left: nat, operator: char, right: nat) -> Result<
    Term,
    MathStringParseError,
> {
    let l = Box::new(Term::Number(left));
    let r = Box::new(Term::Number(right));
    if operator == '+' {
        Ok(Term::Addition(l, r))
    } else if operator == '-' {
        Ok(Term::Subtraction(l, r))
    } else if operator == '*' {
        Ok(Term::Multiplication(l, r))
    } else if operator == '/' {
        Ok(Term::Division(l, r))
    } else {
        Err(MathStringParseError::InvalidOperatorError { operator })
    }
}

/// What a line of text means. A line of the grammar is never `NotParsable`:
/// its operands are worth what their digits write, however many they are, and
/// its symbol gives the operation or is an invalid operator.
pub open spec fn parse(s: Seq<char>) -> Result<Term, MathStringParseError> {
    if !parsable(s) {
        Err(MathStringParseError::NotParsable)
    } else {
        let p = the_split(s);
        compose(
            decimal(s.subrange(p.left, p.left_end)),
            s[p.operator],
            decimal(s.subrange(p.right, p.right_end)),
        )
    }
}

/// What reading a line hands back, with the operation taken as its model.
pub open spec fn reading(result: Result<Operation, MathStringParseError>) -> Result<
    Term,
    MathStringParseError,
> {
    match result {
        Ok(op) => Ok(op@),
        Err(e) => Err(e),
    }
}

/// The first failure of two results, else the two fractions.
pub open spec fn both(left: Result<Ratio, EvalError>, right: Result<Ratio, EvalError>) -> Result<
    (Ratio, Ratio),
    EvalError,
> {
    match (left, right) {
        (Ok(a), Ok(b)) => Ok((a, b)),
        (Err(e), _) => Err(e),
        (_, Err(e)) => Err(e),
    }
}

impl Term {
    /// The real number that the calculation stands for, or `None` where it
    /// divides by zero.
    pub open spec fn exact(self) -> Option<real>
        decreases self,
    {
        match self {
            Term::Number(n) => Some(n as real),
            Term::Addition(left, right) => {
                match (left.exact(), right.exact()) {
                    (Some(a), Some(b)) => Some(a + b),
                    _ => None,
                }
            },
            Term::Subtraction(left, right) => {
                match (left.exact(), right.exact()) {
                    (Some(a), Some(b)) => Some(a - b),
                    _ => None,
                }
            },
            Term::Multiplication(left, right) => {
                match (left.exact(), right.exact()) {
                    (Some(a), Some(b)) => Some(a * b),
                    _ => None,
                }
            },
            Term::Division(left, right) => {
                match (left.exact(), right.exact()) {
                    (Some(a), Some(b)) => if b == 0real {
                        None
                    } else {
                        Some(a / b)
                    },
                    _ => None,
                }
            },
        }
    }

    /// What `execute` computes: the calculation carried out on fractions of
    /// 128-bit integers, the left operand before the right one, up to the
    /// first division by zero or overflow. A number overflows where it does
    /// not fit in 128 bits.
    pub open spec fn value(self) -> Result<Ratio, EvalError>
        decreases self,
    {
        match self {
            Term::Number(n) => if fits(n as int) {
                Ok(Ratio::whole(n as int))
            } else {
                Err(EvalError::Overflow)
            },
            Term::Addition(left, right) => {
                match both(left.value(), right.value()) {
                    Ok((a, b)) => a.plus(b),
                    Err(e) => Err(e),
                }
            },
            Term::Subtraction(left, right) => {
                match both(left.value(), right.value()) {
                    Ok((a, b)) => a.minus(b),
                    Err(e) => Err(e),
                }
            },
            Term::Multiplication(left, right) => {
                match both(left.value(), right.value()) {
                    Ok((a, b)) => a.times(b),
                    Err(e) => Err(e),
                }
            },
            Term::Division(left, right) => {
                match both(left.value(), right.value()) {
                    Ok((a, b)) => a.over(b),
                    Err(e) => Err(e),
                }
            },
        }
    }
}

impl Operation {
    /// Reads a calculation of two operands from a line of text: `3 + 4`, with
    /// any white space or none around the operands and the operator. The
    /// operands are written in decimal digits, however many.
    pub fn from_string(input: &str) -> (result: Result<Operation, MathStringParseError>)
        ensures
            reading(result) == parse(input@),
    {
        let line = characters(input);
        Operation::from_chars(line.as_slice())
    }

    /// Reads a calculation of two operands from the characters of a line.
    pub fn from_chars(line: &[char]) -> (result: Result<Operation, MathStringParseError>)
        ensures
            reading(result) == parse(line@),
    {
        let tokens = match scan(line) {
            Some(tokens) => tokens,
            None => {
                return Err(MathStringParseError::NotParsable);
            },
        };
        proof {
            lemma_preferred_is_the_split(line@, tokens@);
        }
        let left = slice_subrange(line, tokens.left, tokens.left_end);
        let right = slice_subrange(line, tokens.right, tokens.right_end);
        assert(all_digits(left@, 0, left@.len() as int));
        assert(all_digits(right@, 0, right@.len() as int));
        // The scanner hands out runs of digits, and every such run is a number.
        let left = match Natural::from_digits(left) {
            Some(left) => left,
            None => unreached(),
        };
        let right = match Natural::from_digits(right) {
            Some(right) => right,
            None => unreached(),
        };
        Operation::from_parts(left, line[tokens.operator], right)
    }

    /// Builds the operation that `operator` asks for between `left` and
    /// `right`.
    pub fn from_parts(left: Natural, operator: char, right: Natural) -> (result: Result<
        Operation,
        MathStringParseError,
    >)
        ensures
            reading(result) == compose(left@, operator, right@),
    {
        let l = Box::new(Operation::Number(left));
        let r = Box::new(Operation::Number(right));
        let result = match operator {
            '+' => Ok(Operation::Addition { left_addend: l, right_addend: r }),
            '-' => Ok(Operation::Subtraction { minuend: l, subtrahend: r }),
            '*' => Ok(Operation::Multiplication { multiplicand: l, multiplier: r }),
            '/' => Ok(Operation::Division { dividend: l, divisor: r }),
            x => Err(MathStringParseError::InvalidOperatorError { operator: x }),
        };
        proof {
            reveal_with_fuel(Operation::model, 2);
        }
        result
    }

    /// Carries the calculation out, exactly: the result is a fraction in
    /// lowest terms. A division by zero and a number that does not fit in 128
    /// bits are failures, and the first one met is handed back.
    pub fn execute(&self) -> (result: Result<Rational, EvalError>)
        ensures
            outcome(result) == self@.value(),
            result matches Ok(r) ==> r@.reduced() && self@.exact() == Some(r@.value()),
            result == Err::<Rational, EvalError>(EvalError::DivisionByZero) ==> self@.exact() is None,
        decreases self,
    {
        proof {
            lemma_execute_is_exact(self@);
        }
        match self {
            Operation::Number(n) => match n.to_i128() {
                Some(n) => Ok(Rational::from_integer(n)),
                None => Err(EvalError::Overflow),
            },
            Operation::Addition { left_addend, right_addend } => {
                let a = left_addend.execute()?;
                let b = right_addend.execute()?;
                a.checked_add(&b)
            },
            Operation::Subtraction { minuend, subtrahend } => {
                let a = minuend.execute()?;
                let b = subtrahend.execute()?;
                a.checked_sub(&b)
            },
            Operation::Multiplication { multiplicand, multiplier } => {
                let a = multiplicand.execute()?;
                let b = multiplier.execute()?;
                a.checked_mul(&b)
            },
            Operation::Division { dividend, divisor } => {
                let a = dividend.execute()?;
                let b = divisor.execute()?;
                a.checked_div(&b)
            },
        }
    }
}

} // verus!
