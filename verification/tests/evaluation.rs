use calculator::{EvalError, Natural, Operation, Rational};

fn number(n: u64) -> Box<Operation> {
    Box::new(Operation::Number(Natural::from_u64(n)))
}

/// The result as a floating-point number.
fn as_float(result: Result<Rational, EvalError>) -> f64 {
    let r = result.unwrap();
    r.numerator() as f64 / r.denominator() as f64
}

/// The result as numerator and denominator.
fn fraction(result: Result<Rational, EvalError>) -> (i128, i128) {
    let r = result.unwrap();
    (r.numerator(), r.denominator())
}

fn evaluate(line: &str) -> Result<Rational, EvalError> {
    Operation::from_string(line).unwrap().execute()
}

#[test]
fn exec_simple_addition() {
    assert_eq!(
        as_float(
            Operation::Addition {
                left_addend: Operation::Number(Natural::from_u64(1)).into(),
                right_addend: Operation::Number(Natural::from_u64(2)).into()
            }
            .execute()
        ),
        3.0
    )
}

#[test]
fn exec_simple_subtraction() {
    assert_eq!(
        as_float(
            Operation::Subtraction {
                minuend: Operation::Number(Natural::from_u64(1)).into(),
                subtrahend: Operation::Number(Natural::from_u64(2)).into()
            }
            .execute()
        ),
        -1.0
    )
}

#[test]
fn exec_simple_multiplication() {
    assert_eq!(
        as_float(
            Operation::Multiplication {
                multiplicand: Operation::Number(Natural::from_u64(1)).into(),
                multiplier: Operation::Number(Natural::from_u64(2)).into()
            }
            .execute()
        ),
        2.0
    )
}

#[test]
fn exec_simple_division() {
    assert_eq!(
        as_float(
            Operation::Division {
                dividend: Operation::Number(Natural::from_u64(1)).into(),
                divisor: Operation::Number(Natural::from_u64(2)).into()
            }
            .execute()
        ),
        0.5
    )
}

#[test]
fn parse_then_evaluate() {
    assert_eq!(as_float(evaluate("1+2")), 3.0);
    assert_eq!(as_float(evaluate("1-2")), -1.0);
    assert_eq!(as_float(evaluate("1*2")), 2.0);
    assert_eq!(as_float(evaluate("1/2")), 0.5);
}

#[test]
fn division_is_no_multiplication() {
    assert_eq!(fraction(evaluate("6 / 3")), (2, 1));
    assert_eq!(fraction(evaluate("3 / 6")), (1, 2));
    assert_eq!(fraction(evaluate("1 / 2")), (1, 2));
    assert_eq!(fraction(evaluate("7 / 7")), (1, 1));
    assert_eq!(fraction(evaluate("0 / 5")), (0, 1));
}

#[test]
fn division_does_not_truncate() {
    assert_eq!(fraction(evaluate("7 / 2")), (7, 2));
    assert_eq!(as_float(evaluate("7 / 2")), 3.5);
    assert_eq!(fraction(evaluate("1 / 3")), (1, 3));
    assert_eq!(fraction(evaluate("10 / 4")), (5, 2));
    assert_eq!(fraction(evaluate("22 / 7")), (22, 7));
}

#[test]
fn results_on_integers() {
    assert_eq!(fraction(evaluate("3 + 4")), (7, 1));
    assert_eq!(fraction(evaluate("3 - 4")), (-1, 1));
    assert_eq!(fraction(evaluate("3 * 4")), (12, 1));
    assert_eq!(fraction(evaluate("0 * 4")), (0, 1));
    assert_eq!(fraction(evaluate("12 - 12")), (0, 1));
}

#[test]
fn the_largest_operands_do_not_overflow() {
    let max = i64::MAX as i128;
    assert_eq!(fraction(evaluate("9223372036854775807 + 9223372036854775807")), (2 * max, 1));
    assert_eq!(fraction(evaluate("0 - 9223372036854775807")), (-max, 1));
    assert_eq!(fraction(evaluate("9223372036854775807 * 9223372036854775807")), (max * max, 1));
    assert_eq!(fraction(evaluate("1 / 9223372036854775807")), (1, max));
    assert_eq!(fraction(evaluate("9223372036854775807 / 9223372036854775807")), (1, 1));
}

#[test]
fn division_by_zero_is_reported() {
    assert_eq!(evaluate("1 / 0"), Err(EvalError::DivisionByZero));
    assert_eq!(evaluate("0 / 0"), Err(EvalError::DivisionByZero));
    assert_eq!(evaluate("0/000"), Err(EvalError::DivisionByZero));
}

#[test]
fn a_number_is_its_own_value() {
    assert_eq!(fraction(number(0).execute()), (0, 1));
    assert_eq!(fraction(number(5).execute()), (5, 1));
    assert_eq!(fraction(number(u64::MAX).execute()), (u64::MAX as i128, 1));
}

#[test]
fn operands_beyond_64_bits() {
    assert_eq!(fraction(evaluate("10000000000000000000 + 1")), (10000000000000000001, 1));
    assert_eq!(fraction(evaluate("18446744073709551616 - 18446744073709551617")), (-1, 1));
    assert_eq!(fraction(evaluate("9223372036854775808 * 9223372036854775808")), (1_i128 << 126, 1));
    assert_eq!(fraction(evaluate("36893488147419103232 / 18446744073709551616")), (2, 1));
    assert_eq!(fraction(evaluate("1 / 18446744073709551616")), (1, 1_i128 << 64));
    assert_eq!(
        fraction(evaluate("170141183460469231731687303715884105727 + 0")),
        (i128::MAX, 1)
    );
    assert_eq!(
        fraction(evaluate("170141183460469231731687303715884105727 / 170141183460469231731687303715884105727")),
        (1, 1)
    );
}

#[test]
fn operands_beyond_128_bits_overflow() {
    assert_eq!(evaluate("170141183460469231731687303715884105728 + 0"), Err(EvalError::Overflow));
    assert_eq!(evaluate("0 * 170141183460469231731687303715884105728"), Err(EvalError::Overflow));
    assert_eq!(
        evaluate("340282366920938463463374607431768211456 - 340282366920938463463374607431768211456"),
        Err(EvalError::Overflow)
    );
    assert_eq!(evaluate("170141183460469231731687303715884105727 + 1"), Err(EvalError::Overflow));
    assert_eq!(evaluate("18446744073709551616 * 9223372036854775808"), Err(EvalError::Overflow));
}

#[test]
fn an_operand_fails_before_the_division() {
    assert_eq!(evaluate("170141183460469231731687303715884105728 / 0"), Err(EvalError::Overflow));
    assert_eq!(evaluate("170141183460469231731687303715884105727 / 0"), Err(EvalError::DivisionByZero));
    assert_eq!(evaluate("0 / 170141183460469231731687303715884105728"), Err(EvalError::Overflow));
}

#[test]
fn nested_operations() {
    // (1 / 2 + 1 / 3) * (4 - 10) = -5
    let sum = Operation::Addition {
        left_addend: Operation::Division { dividend: number(1), divisor: number(2) }.into(),
        right_addend: Operation::Division { dividend: number(1), divisor: number(3) }.into(),
    };
    assert_eq!(fraction(sum.execute()), (5, 6));
    let product = Operation::Multiplication {
        multiplicand: sum.into(),
        multiplier: Operation::Subtraction { minuend: number(4), subtrahend: number(10) }.into(),
    };
    assert_eq!(fraction(product.execute()), (-5, 1));
}

#[test]
fn a_negative_divisor_leaves_the_sign_in_the_numerator() {
    let minus_two = Operation::Subtraction { minuend: number(0), subtrahend: number(2) };
    let quotient = Operation::Division { dividend: number(3), divisor: minus_two.into() };
    assert_eq!(fraction(quotient.execute()), (-3, 2));
    assert_eq!(as_float(quotient.execute()), -1.5);
}

#[test]
fn division_by_a_nested_zero() {
    let zero = Operation::Subtraction { minuend: number(2), subtrahend: number(2) };
    let quotient = Operation::Division { dividend: number(3), divisor: zero.into() };
    assert_eq!(quotient.execute(), Err(EvalError::DivisionByZero));
    let deeper = Operation::Addition { left_addend: number(1), right_addend: quotient.into() };
    assert_eq!(deeper.execute(), Err(EvalError::DivisionByZero));
}

/// `i64::MAX` to the power of 2, 4, 8, ...
fn squared(times: u32) -> Operation {
    if times == 0 {
        Operation::Number(Natural::from_u64(i64::MAX as u64))
    } else {
        Operation::Multiplication {
            multiplicand: squared(times - 1).into(),
            multiplier: squared(times - 1).into(),
        }
    }
}

#[test]
fn overflow_is_reported() {
    let max = i64::MAX as i128;
    assert_eq!(fraction(squared(1).execute()), (max * max, 1));
    assert_eq!(squared(2).execute(), Err(EvalError::Overflow));
    assert_eq!(squared(3).execute(), Err(EvalError::Overflow));
}

#[test]
fn the_first_failure_is_reported() {
    let by_zero = || Operation::Division { dividend: number(1), divisor: number(0) };
    let left = Operation::Addition { left_addend: squared(2).into(), right_addend: by_zero().into() };
    assert_eq!(left.execute(), Err(EvalError::Overflow));
    let right = Operation::Addition { left_addend: by_zero().into(), right_addend: squared(2).into() };
    assert_eq!(right.execute(), Err(EvalError::DivisionByZero));
}

#[test]
fn evaluating_twice_gives_the_same_result() {
    for line in ["1+2", "1/2", "10 / 4", "1 / 0", "9223372036854775807 * 9223372036854775807"] {
        let op = Operation::from_string(line).unwrap();
        assert_eq!(op.execute(), op.execute(), "{:?}", line);
    }
    assert_eq!(squared(2).execute(), squared(2).execute());
}

#[test]
fn equal_values_are_equal_results() {
    assert_eq!(evaluate("2 / 4"), evaluate("1 / 2"));
    assert_eq!(evaluate("6 / 3"), evaluate("1 + 1"));
    assert_eq!(evaluate("0 / 9"), evaluate("5 - 5"));
    assert_ne!(evaluate("1 / 2"), evaluate("1 * 2"));
}
