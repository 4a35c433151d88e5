//! Exact fractions of 128-bit integers, and the arithmetic on them.

use vstd::prelude::*;
use vstd::arithmetic::div_mod::{lemma_fundamental_div_mod_converse, lemma_mod_is_zero};
use vstd::math::abs;
use crate::divisors::{
    divides, gcd, greatest_common_divisor, lemma_coprime_divides, lemma_divides_quotient,
    lemma_gcd_divides, lemma_gcd_greatest, lemma_gcd_positive, lemma_gcd_symmetric,
    lemma_multiple_divides,
};

verus! {

/// Why a calculation has no result.
#[derive(Debug, PartialEq, Eq, Clone, Copy)]
pub enum EvalError {
    /// A divisor is zero.
    DivisionByZero,
    /// A numerator or a denominator does not fit in 128 bits.
    Overflow,
}

/// A fraction of two integers: the mathematical model of a `Rational`.
pub struct Ratio {
    pub num: int,
    pub den: int,
}

/// The numbers that a numerator or a denominator can hold.
pub open spec fn fits(n: int) -> bool {
    i128::MIN <= n <= i128::MAX
}

impl Ratio {
    /// The real number that the fraction stands for.
    pub open spec fn value(self) -> real {
        self.num as real / self.den as real
    }

    /// The fraction is in lowest terms and its denominator is positive.
    pub open spec fn reduced(self) -> bool {
        self.den > 0 && gcd(abs(self.num), abs(self.den)) == 1
    }

    /// The integer `n` as a fraction.
    pub open spec fn whole(n: int) -> Ratio {
        Ratio { num: n, den: 1 }
    }

    /// The fraction `n / d` in lowest terms, for a positive `d`.
    pub open spec fn of(n: int, d: int) -> Ratio {
        let g = gcd(abs(n), abs(d)) as int;
        Ratio { num: n / g, den: d / g }
    }

    /// The sum, by cross multiplication. It overflows when one of the two
    /// cross products, their sum, or the product of the denominators does not
    /// fit, whatever the sum would be in lowest terms.
    pub open spec fn plus(self, other: Ratio) -> Result<Ratio, EvalError> {
        let p = self.num * other.den;
        let q = other.num * self.den;
        let d = self.den * other.den;
        if fits(p) && fits(q) && fits(p + q) && fits(d) {
            Ok(Ratio::of(p + q, d))
        } else {
            Err(EvalError::Overflow)
        }
    }

    /// The difference, by cross multiplication. It overflows when one of the
    /// two cross products, their difference, or the product of the
    /// denominators does not fit.
    pub open spec fn minus(self, other: Ratio) -> Result<Ratio, EvalError> {
        let p = self.num * other.den;
        let q = other.num * self.den;
        let d = self.den * other.den;
        if fits(p) && fits(q) && fits(p - q) && fits(d) {
            Ok(Ratio::of(p - q, d))
        } else {
            Err(EvalError::Overflow)
        }
    }

    /// The product. It overflows when the product of the numerators or that
    /// of the denominators does not fit.
    pub open spec fn times(self, other: Ratio) -> Result<Ratio, EvalError> {
        let n = self.num * other.num;
        let d = self.den * other.den;
        if fits(n) && fits(d) {
            Ok(Ratio::of(n, d))
        } else {
            Err(EvalError::Overflow)
        }
    }

    /// One over the fraction, with the sign in the numerator. The fraction is
    /// not zero.
    pub open spec fn reciprocal(self) -> Ratio {
        if self.num > 0 {
            Ratio { num: self.den, den: self.num }
        } else {
            Ratio { num: -self.den, den: -self.num }
        }
    }

    /// The quotient: the product with the reciprocal of the divisor. It
    /// overflows when the reciprocal does not fit, or when that product
    /// overflows.
    pub open spec fn over(self, other: Ratio) -> Result<Ratio, EvalError> {
        if other.num == 0 {
            Err(EvalError::DivisionByZero)
        } else if !fits(-other.num) {
            Err(EvalError::Overflow)
        } else {
            self.times(other.reciprocal())
        }
    }
}

/// `Ratio::of` keeps the value of the fraction, brings it to lowest terms,
/// and moves neither the numerator nor the denominator away from zero.
pub proof fn lemma_of(n: int, d: int)
    requires
        d > 0,
    ensures
        Ratio::of(n, d).reduced(),
        Ratio::of(n, d).value() == n as real / d as real,
        0 <= Ratio::of(n, d).num <= n || n <= Ratio::of(n, d).num <= 0,
        Ratio::of(n, d).den <= d,
{
    let g = gcd(abs(n), abs(d));
    let r = Ratio::of(n, d);
    lemma_common_factor(n, d);
    let gi = g as int;
    assert(r.den > 0 && r.den <= d && (0 <= r.num <= n || n <= r.num <= 0)) by (nonlinear_arith)
        requires
            gi > 0,
            d > 0,
            n == r.num * gi,
            d == r.den * gi,
    ;
    assert(r.value() == n as real / d as real) by (nonlinear_arith)
        requires
            gi > 0,
            r.den > 0,
            n == r.num * gi,
            d == r.den * gi,
    ;
    // A common divisor `h` of the reduced numerator and denominator makes
    // `h * g` a common divisor of `n` and `d`, so `h * g` divides `g`.
    let h = gcd(abs(r.num), abs(r.den));
    lemma_gcd_divides(abs(r.num), abs(r.den));
    lemma_divides_quotient(h, abs(r.num) as int);
    lemma_divides_quotient(h, abs(r.den) as int);
    let x = (abs(r.num) as int) / (h as int);
    let y = (abs(r.den) as int) / (h as int);
    let hg = (h * g) as nat;
    assert(hg > 0 && abs(n) == x * hg && d == y * hg) by (nonlinear_arith)
        requires
            gi > 0,
            h > 0,
            hg == h * gi,
            n == r.num * gi,
            d == r.den * gi,
            r.den > 0,
            abs(r.num) == x * h,
            abs(r.den) == y * h,
    ;
    lemma_multiple_divides(hg, x);
    lemma_multiple_divides(hg, y);
    lemma_gcd_greatest(abs(n), abs(d), hg);
    lemma_divides_quotient(hg, gi);
    let k = gi / (hg as int);
    assert(h == 1) by (nonlinear_arith)
        requires
            gi > 0,
            h > 0,
            hg == h * gi,
            gi == k * hg,
    ;
}

/// The greatest common divisor of `n` and a positive `d` is a factor of both.
pub proof fn lemma_common_factor(n: int, d: int)
    requires
        d > 0,
    ensures
        gcd(abs(n), abs(d)) > 0,
        n == (n / (gcd(abs(n), abs(d)) as int)) * gcd(abs(n), abs(d)),
        d == (d / (gcd(abs(n), abs(d)) as int)) * gcd(abs(n), abs(d)),
{
    let g = gcd(abs(n), abs(d));
    lemma_gcd_positive(abs(n), abs(d));
    lemma_gcd_divides(abs(n), abs(d));
    lemma_divides_quotient(g, d);
    if n < 0 {
        lemma_divides_quotient(g, -n);
        let k = -((-n) / (g as int));
        assert(n == k * g) by (nonlinear_arith)
            requires
                -n == ((-n) / (g as int)) * g,
                k == -((-n) / (g as int)),
        ;
        lemma_multiple_divides(g, k);
    }
    lemma_divides_quotient(g, n);
}

/// A number is written as a fraction in lowest terms in one way only.
pub proof fn lemma_reduced_is_unique(a: Ratio, b: Ratio)
    requires
        a.reduced(),
        b.reduced(),
        a.value() == b.value(),
    ensures
        a == b,
{
    assert(a.num * b.den == b.num * a.den) by (nonlinear_arith)
        requires
            a.den > 0,
            b.den > 0,
            a.num as real / a.den as real == b.num as real / b.den as real,
    ;
    lemma_denominator_divides(a, b);
    lemma_denominator_divides(b, a);
    lemma_mod_is_zero(a.den as nat, b.den as nat);
    lemma_mod_is_zero(b.den as nat, a.den as nat);
    assert(a.num == b.num) by (nonlinear_arith)
        requires
            a.den > 0,
            a.den == b.den,
            a.num * b.den == b.num * a.den,
    ;
}

/// Of two fractions with the same value, the denominator of the one in
/// lowest terms divides the denominator of the other.
proof fn lemma_denominator_divides(a: Ratio, b: Ratio)
    requires
        a.reduced(),
        b.den > 0,
        a.num * b.den == b.num * a.den,
    ensures
        divides(a.den as nat, b.den),
{
    let d = a.den as nat;
    lemma_gcd_symmetric(abs(a.num), d);
    assert(abs(a.num) * b.den == abs(b.num) * d) by (nonlinear_arith)
        requires
            a.den > 0,
            b.den > 0,
            d == a.den,
            a.num * b.den == b.num * a.den,
    ;
    lemma_multiple_divides(d, abs(b.num) as int);
    lemma_coprime_divides(d, abs(a.num), b.den as nat);
}

/// `Ratio::of` leaves an integer as it is.
pub proof fn lemma_of_whole(n: int)
    ensures
        Ratio::of(n, 1) == Ratio::whole(n),
{
    assert(gcd(abs(n), 1) == 1) by {
        reveal_with_fuel(gcd, 3);
    }
    assert(n / 1 == n);
    assert(1int / 1 == 1);
}

/// On integers the arithmetic is that of the integers, as far as the results
/// fit; a quotient is the fraction of the two in lowest terms.
pub proof fn lemma_whole(x: int, y: int)
    requires
        fits(x),
        fits(y),
    ensures
        Ratio::whole(x).plus(Ratio::whole(y)) == (if fits(x + y) {
            Ok::<Ratio, EvalError>(Ratio::whole(x + y))
        } else {
            Err(EvalError::Overflow)
        }),
        Ratio::whole(x).minus(Ratio::whole(y)) == (if fits(x - y) {
            Ok::<Ratio, EvalError>(Ratio::whole(x - y))
        } else {
            Err(EvalError::Overflow)
        }),
        Ratio::whole(x).times(Ratio::whole(y)) == (if fits(x * y) {
            Ok::<Ratio, EvalError>(Ratio::whole(x * y))
        } else {
            Err(EvalError::Overflow)
        }),
        y > 0 ==> Ratio::whole(x).over(Ratio::whole(y)) == Ok::<Ratio, EvalError>(Ratio::of(x, y)),
{
    let a = Ratio::whole(x);
    let b = Ratio::whole(y);
    assert(a.num * b.den == x && b.num * a.den == y && a.den * b.den == 1 && a.num * b.num == x
        * y);
    lemma_of_whole(x + y);
    lemma_of_whole(x - y);
    lemma_of_whole(x * y);
}

/// A sum that does not overflow is the sum of the two values, in lowest
/// terms, and fits.
pub proof fn lemma_plus(a: Ratio, b: Ratio)
    requires
        a.den > 0,
        b.den > 0,
        a.plus(b) is Ok,
    ensures
        a.plus(b)->Ok_0.reduced(),
        a.plus(b)->Ok_0.value() == a.value() + b.value(),
        fits(a.plus(b)->Ok_0.num),
        fits(a.plus(b)->Ok_0.den),
{
    let n = a.num * b.den + b.num * a.den;
    let d = a.den * b.den;
    lemma_positive_product(a.den, b.den);
    lemma_of(n, d);
    assert(n as real / d as real == a.value() + b.value()) by (nonlinear_arith)
        requires
            a.den > 0,
            b.den > 0,
            n == a.num * b.den + b.num * a.den,
            d == a.den * b.den,
    ;
}

/// A difference that does not overflow is the difference of the two values,
/// in lowest terms, and fits.
pub proof fn lemma_minus(a: Ratio, b: Ratio)
    requires
        a.den > 0,
        b.den > 0,
        a.minus(b) is Ok,
    ensures
        a.minus(b)->Ok_0.reduced(),
        a.minus(b)->Ok_0.value() == a.value() - b.value(),
        fits(a.minus(b)->Ok_0.num),
        fits(a.minus(b)->Ok_0.den),
{
    let n = a.num * b.den - b.num * a.den;
    let d = a.den * b.den;
    lemma_positive_product(a.den, b.den);
    lemma_of(n, d);
    assert(n as real / d as real == a.value() - b.value()) by (nonlinear_arith)
        requires
            a.den > 0,
            b.den > 0,
            n == a.num * b.den - b.num * a.den,
            d == a.den * b.den,
    ;
}

/// A product that does not overflow is the product of the two values, in
/// lowest terms, and fits.
pub proof fn lemma_times(a: Ratio, b: Ratio)
    requires
        a.den > 0,
        b.den > 0,
        a.times(b) is Ok,
    ensures
        a.times(b)->Ok_0.reduced(),
        a.times(b)->Ok_0.value() == a.value() * b.value(),
        fits(a.times(b)->Ok_0.num),
        fits(a.times(b)->Ok_0.den),
{
    let n = a.num * b.num;
    let d = a.den * b.den;
    lemma_positive_product(a.den, b.den);
    lemma_of(n, d);
    assert(n as real / d as real == a.value() * b.value()) by (nonlinear_arith)
        requires
            a.den > 0,
            b.den > 0,
            n == a.num * b.num,
            d == a.den * b.den,
    ;
}

/// A quotient that neither divides by zero nor overflows is the quotient of
/// the two values, in lowest terms, and fits. The divisor is zero exactly
/// when its value is.
pub proof fn lemma_over(a: Ratio, b: Ratio)
    requires
        a.den > 0,
        b.den > 0,
    ensures
        b.num == 0 <==> b.value() == 0real,
        a.over(b) is Ok ==> {
            &&& a.over(b)->Ok_0.reduced()
            &&& a.over(b)->Ok_0.value() == a.value() / b.value()
            &&& fits(a.over(b)->Ok_0.num)
            &&& fits(a.over(b)->Ok_0.den)
        },
{
    assert(b.num == 0 <==> b.value() == 0real) by (nonlinear_arith)
        requires
            b.den > 0,
    ;
    if a.over(b) is Ok {
        let r = b.reciprocal();
        lemma_times(a, r);
        assert(a.value() * r.value() == a.value() / b.value()) by (nonlinear_arith)
            requires
                a.den > 0,
                b.den > 0,
                b.num != 0,
                r == b.reciprocal(),
        ;
    }
}

/// An exact fraction of two 128-bit integers, held in lowest terms with a
/// positive denominator.
#[derive(Debug, PartialEq, Eq, Clone, Copy)]
pub struct Rational {
    num: i128,
    den: i128,
}

impl View for Rational {
    type V = Ratio;

    closed spec fn view(&self) -> Ratio {
        Ratio { num: self.num as int, den: self.den as int }
    }
}

/// The absolute value of a 128-bit integer.
fn magnitude(n: i128) -> (m: u128)
    ensures
        m == abs(n as int),
{
    if n >= 0 {
        n as u128
    } else {
        (-(n + 1)) as u128 + 1
    }
}

impl Rational {
    #[verifier::type_invariant]
    spec fn in_lowest_terms(self) -> bool {
        self@.reduced()
    }

    /// The fraction `n / d` in lowest terms.
    fn reduce(n: i128, d: i128) -> (r: Rational)
        requires
            d > 0,
        ensures
            r@ == Ratio::of(n as int, d as int),
    {
        let g = greatest_common_divisor(magnitude(n), d as u128);
        proof {
            lemma_common_factor(n as int, d as int);
            lemma_of(n as int, d as int);
            let gi = g as int;
            let q = (n as int) / gi;
            assert(gi <= d) by (nonlinear_arith)
                requires
                    gi > 0,
                    d > 0,
                    d == ((d as int) / gi) * gi,
            ;
            if n < 0 {
                // The machine rounds a quotient towards zero; here nothing is
                // rounded, because `g` divides `n`.
                assert(-(n as int) == (-q) * gi + 0) by (nonlinear_arith)
                    requires
                        n as int == q * gi,
                ;
                lemma_fundamental_div_mod_converse(-(n as int), gi, -q, 0);
            }
        }
        let g = g as i128;
        Rational { num: n / g, den: d / g }
    }

    /// The integer `n` as a fraction.
    pub fn from_integer(n: i128) -> (r: Rational)
        ensures
            r@ == Ratio::whole(n as int),
            r@.value() == n as real,
    {
        assert((n as int) as real / 1int as real == n as real) by (nonlinear_arith);
        assert(gcd(abs(n as int), 1) == 1) by {
            reveal_with_fuel(gcd, 3);
        }
        Rational { num: n, den: 1 }
    }

    /// The numerator. It carries the sign of the fraction.
    pub fn numerator(&self) -> (n: i128)
        ensures
            n == self@.num,
            self@.reduced(),
    {
        proof {
            use_type_invariant(self);
        }
        self.num
    }

    /// The denominator, which is positive.
    pub fn denominator(&self) -> (d: i128)
        ensures
            d == self@.den,
            d > 0,
            self@.reduced(),
    {
        proof {
            use_type_invariant(self);
        }
        self.den
    }

    /// The sum of two fractions.
    pub fn checked_add(&self, other: &Rational) -> (result: Result<Rational, EvalError>)
        ensures
            outcome(result) == self@.plus(other@),
            result matches Ok(r) ==> r@.reduced() && r@.value() == self@.value() + other@.value(),
    {
        proof {
            use_type_invariant(self);
            use_type_invariant(other);
            lemma_positive_product(self.den as int, other.den as int);
            if self@.plus(other@) is Ok {
                lemma_plus(self@, other@);
            }
        }
        let p = self.num.checked_mul(other.den);
        let q = other.num.checked_mul(self.den);
        let d = self.den.checked_mul(other.den);
        match (p, q, d) {
            (Some(p), Some(q), Some(d)) => match p.checked_add(q) {
                Some(n) => Ok(Rational::reduce(n, d)),
                None => Err(EvalError::Overflow),
            },
            _ => Err(EvalError::Overflow),
        }
    }

    /// The difference of two fractions.
    pub fn checked_sub(&self, other: &Rational) -> (result: Result<Rational, EvalError>)
        ensures
            outcome(result) == self@.minus(other@),
            result matches Ok(r) ==> r@.reduced() && r@.value() == self@.value() - other@.value(),
    {
        proof {
            use_type_invariant(self);
            use_type_invariant(other);
            lemma_positive_product(self.den as int, other.den as int);
            if self@.minus(other@) is Ok {
                lemma_minus(self@, other@);
            }
        }
        let p = self.num.checked_mul(other.den);
        let q = other.num.checked_mul(self.den);
        let d = self.den.checked_mul(other.den);
        match (p, q, d) {
            (Some(p), Some(q), Some(d)) => match p.checked_sub(q) {
                Some(n) => Ok(Rational::reduce(n, d)),
                None => Err(EvalError::Overflow),
            },
            _ => Err(EvalError::Overflow),
        }
    }

    /// The product of two fractions.
    pub fn checked_mul(&self, other: &Rational) -> (result: Result<Rational, EvalError>)
        ensures
            outcome(result) == self@.times(other@),
            result matches Ok(r) ==> r@.reduced() && r@.value() == self@.value() * other@.value(),
    {
        proof {
            use_type_invariant(self);
            use_type_invariant(other);
            if self@.times(other@) is Ok {
                lemma_times(self@, other@);
            }
        }
        Rational::product(self.num, self.den, other.num, other.den)
    }

    /// The quotient of two fractions.
    pub fn checked_div(&self, other: &Rational) -> (result: Result<Rational, EvalError>)
        ensures
            outcome(result) == self@.over(other@),
            result matches Ok(r) ==> r@.reduced() && r@.value() == self@.value() / other@.value(),
            result == Err::<Rational, EvalError>(EvalError::DivisionByZero) <==> other@.value()
                == 0real,
    {
        proof {
            use_type_invariant(self);
            use_type_invariant(other);
            lemma_over(self@, other@);
        }
        if other.num == 0 {
            Err(EvalError::DivisionByZero)
        } else if other.num > 0 {
            Rational::product(self.num, self.den, other.den, other.num)
        } else if other.num == i128::MIN {
            Err(EvalError::Overflow)
        } else {
            Rational::product(self.num, self.den, -other.den, -other.num)
        }
    }

    /// The product of `n1 / d1` and `n2 / d2`, which need not be in lowest
    /// terms.
    fn product(n1: i128, d1: i128, n2: i128, d2: i128) -> (result: Result<Rational, EvalError>)
        requires
            d1 > 0,
            d2 > 0,
        ensures
            outcome(result) == (Ratio { num: n1 as int, den: d1 as int }).times(
                Ratio { num: n2 as int, den: d2 as int },
            ),
    {
        proof {
            lemma_positive_product(d1 as int, d2 as int);
        }
        match (n1.checked_mul(n2), d1.checked_mul(d2)) {
            (Some(n), Some(d)) => Ok(Rational::reduce(n, d)),
            _ => Err(EvalError::Overflow),
        }
    }
}

/// Two fractions with the same model are the same fraction, and every model
/// of a fraction fits.
pub proof fn lemma_view(a: Rational, b: Rational)
    ensures
        a@ == b@ ==> a == b,
        fits(a@.num),
        fits(a@.den),
{
}

/// What a computation hands back, with the fraction taken as its model.
pub open spec fn outcome(result: Result<Rational, EvalError>) -> Result<Ratio, EvalError> {
    match result {
        Ok(r) => Ok(r@),
        Err(e) => Err(e),
    }
}

/// A product of two positive numbers is positive.
proof fn lemma_positive_product(a: int, b: int)
    requires
        a > 0,
        b > 0,
    ensures
        a * b > 0,
{
    assert(a * b > 0) by (nonlinear_arith)
        requires
            a > 0,
            b > 0,
    ;
}

} // verus!
