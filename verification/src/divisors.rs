//! Divisibility and the greatest common divisor.

use vstd::prelude::*;
use vstd::arithmetic::div_mod::{
    lemma_fundamental_div_mod, lemma_mod_is_zero, lemma_mod_multiples_basic, lemma_truncate_middle,
};

verus! {

/// `n` is a multiple of the positive number `d`.
pub open spec fn divides(d: nat, n: int) -> bool {
    d > 0 && n % (d as int) == 0
}

/// The greatest common divisor of two natural numbers, by Euclid's rule.
/// `gcd(0, 0)` is 0.
pub open spec fn gcd(a: nat, b: nat) -> nat
    decreases b,
{
    if b == 0 {
        a
    } else {
        gcd(b, a % b)
    }
}

/// A multiple of `d` is `d` times its quotient by `d`.
pub proof fn lemma_divides_quotient(d: nat, n: int)
    requires
        divides(d, n),
    ensures
        n == (n / (d as int)) * d,
{
    lemma_fundamental_div_mod(n, d as int);
}

/// Every product with `d` is a multiple of `d`.
pub proof fn lemma_multiple_divides(d: nat, k: int)
    requires
        d > 0,
    ensures
        divides(d, k * d),
{
    lemma_mod_multiples_basic(k, d as int);
}

/// What divides `a` and `b` divides `a * k + b`.
pub proof fn lemma_divides_combination(d: nat, a: int, k: int, b: int)
    requires
        divides(d, a),
        divides(d, b),
    ensures
        divides(d, a * k + b),
{
    lemma_divides_quotient(d, a);
    lemma_divides_quotient(d, b);
    let x = a / (d as int);
    let y = b / (d as int);
    assert(a * k + b == (x * k + y) * d) by (nonlinear_arith)
        requires
            a == x * d,
            b == y * d,
    ;
    lemma_multiple_divides(d, x * k + y);
}

/// The greatest common divisor of two numbers that are not both 0 is positive.
pub proof fn lemma_gcd_positive(a: nat, b: nat)
    requires
        a > 0 || b > 0,
    ensures
        gcd(a, b) > 0,
    decreases b,
{
    if b != 0 {
        lemma_gcd_positive(b, a % b);
    }
}

/// The greatest common divisor divides both numbers.
pub proof fn lemma_gcd_divides(a: nat, b: nat)
    requires
        a > 0 || b > 0,
    ensures
        divides(gcd(a, b), a as int),
        divides(gcd(a, b), b as int),
    decreases b,
{
    lemma_gcd_positive(a, b);
    if b == 0 {
        lemma_multiple_divides(a, 1);
        lemma_multiple_divides(a, 0);
    } else {
        let g = gcd(b, a % b);
        lemma_gcd_divides(b, a % b);
        lemma_fundamental_div_mod(a as int, b as int);
        lemma_divides_combination(g, b as int, (a / b) as int, (a % b) as int);
    }
}

/// What divides both numbers divides their greatest common divisor.
pub proof fn lemma_gcd_greatest(a: nat, b: nat, d: nat)
    requires
        divides(d, a as int),
        divides(d, b as int),
    ensures
        divides(d, gcd(a, b) as int),
    decreases b,
{
    if b != 0 {
        lemma_fundamental_div_mod(a as int, b as int);
        let k = -((a as int) / (b as int));
        assert((a % b) as int == (b as int) * k + (a as int)) by (nonlinear_arith)
            requires
                a as int == (b as int) * ((a as int) / (b as int)) + ((a as int) % (b as int)),
                k == -((a as int) / (b as int)),
                (a % b) as int == (a as int) % (b as int),
        ;
        lemma_divides_combination(d, b as int, k, a as int);
        lemma_gcd_greatest(b, a % b, d);
    }
}

/// The greatest common divisor does not depend on the order of the two
/// numbers.
pub proof fn lemma_gcd_symmetric(a: nat, b: nat)
    ensures
        gcd(a, b) == gcd(b, a),
{
    if a > 0 || b > 0 {
        let g = gcd(a, b);
        let h = gcd(b, a);
        lemma_gcd_positive(a, b);
        lemma_gcd_positive(b, a);
        lemma_gcd_divides(a, b);
        lemma_gcd_divides(b, a);
        lemma_gcd_greatest(b, a, g);
        lemma_gcd_greatest(a, b, h);
        lemma_mod_is_zero(h, g);
        lemma_mod_is_zero(g, h);
    }
}

/// A common factor of two numbers is a factor of their greatest common
/// divisor.
pub proof fn lemma_gcd_scales(a: nat, b: nat, c: nat)
    ensures
        gcd(c * a, c * b) == c * gcd(a, b),
    decreases b,
{
    if c == 0 {
        assert(c * a == 0 && c * b == 0) by (nonlinear_arith)
            requires
                c == 0,
        ;
        assert(c * gcd(a, b) == 0) by (nonlinear_arith)
            requires
                c == 0,
        ;
    } else if b == 0 {
        assert(c * b == 0) by (nonlinear_arith)
            requires
                b == 0,
        ;
    } else {
        lemma_truncate_middle(a as int, c as int, b as int);
        lemma_gcd_scales(b, a % b, c);
    }
}

/// Euclid's lemma: what divides a product and has no factor in common with
/// one of the two numbers divides the other.
pub proof fn lemma_coprime_divides(d: nat, a: nat, b: nat)
    requires
        gcd(d, a) == 1,
        divides(d, (a * b) as int),
    ensures
        divides(d, b as int),
{
    // `d` divides `d * b` and `a * b`, so it divides their greatest common
    // divisor, which is `gcd(d, a) * b`.
    lemma_multiple_divides(d, b as int);
    assert(b * d == d * b && a * b == b * a) by (nonlinear_arith);
    lemma_gcd_greatest(b * d, b * a, d);
    lemma_gcd_scales(d, a, b);
}

/// Computes the greatest common divisor.
pub fn greatest_common_divisor(a: u128, b: u128) -> (g: u128)
    ensures
        g == gcd(a as nat, b as nat),
{
    let mut x = a;
    let mut y = b;
    while y != 0
        invariant
            gcd(x as nat, y as nat) == gcd(a as nat, b as nat),
        decreases y,
    {
        let r = x % y;
        x = y;
        y = r;
    }
    x
}

} // verus!
