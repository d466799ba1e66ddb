//! The tick rate of the system timer and its ratios to common time units.

use vstd::prelude::*;

verus! {

/// The greatest common divisor of `a` and `b`, by Euclid's algorithm.
pub open spec fn gcd_spec(a: u64, b: u64) -> u64
    decreases b,
{
    if b == 0 {
        a
    } else {
        gcd_spec(b, a % b)
    }
}

/// The greatest common divisor of `a` and `b`.
pub fn gcd(a: u64, b: u64) -> (r: u64)
    ensures
        r == gcd_spec(a, b),
    decreases b,
{
    if b == 0 {
        a
    } else {
        gcd(b, a % b)
    }
}

/// `gcd_spec(a, b)` divides both `a` and `b`.
pub proof fn lemma_gcd_divides(a: u64, b: u64)
    requires
        a > 0 || b > 0,
    ensures
        gcd_spec(a, b) > 0,
        a % gcd_spec(a, b) == 0,
        b % gcd_spec(a, b) == 0,
    decreases b,
{
    if b > 0 {
        let r = (a % b) as u64;
        lemma_gcd_divides(b, r);
        let g = gcd_spec(b, r);
        assert(gcd_spec(a, b) == g);
        vstd::arithmetic::div_mod::lemma_fundamental_div_mod(a as int, b as int);
        vstd::arithmetic::div_mod::lemma_fundamental_div_mod(b as int, g as int);
        vstd::arithmetic::div_mod::lemma_fundamental_div_mod(r as int, g as int);
        let q = (b as int / g as int) * (a as int / b as int) + r as int / g as int;
        assert(a as int == g * q) by (nonlinear_arith)
            requires
                a as int == b as int * (a as int / b as int) + r as int,
                b as int == g * (b as int / g as int),
                r as int == g * (r as int / g as int),
                q == (b as int / g as int) * (a as int / b as int) + r as int / g as int,
        ;
        vstd::arithmetic::div_mod::lemma_mod_multiples_basic(q, g as int);
        assert(q * g == g * q) by (nonlinear_arith);
    }
}

/// Every common divisor of `a` and `b` divides `gcd_spec(a, b)`: with
/// `lemma_gcd_divides`, it is the greatest common divisor.
pub proof fn lemma_gcd_greatest(a: u64, b: u64, d: u64)
    requires
        d > 0,
        a % d == 0,
        b % d == 0,
    ensures
        gcd_spec(a, b) % d == 0,
    decreases b,
{
    if b > 0 {
        let r = (a % b) as u64;
        vstd::arithmetic::div_mod::lemma_fundamental_div_mod(a as int, b as int);
        vstd::arithmetic::div_mod::lemma_fundamental_div_mod(a as int, d as int);
        vstd::arithmetic::div_mod::lemma_fundamental_div_mod(b as int, d as int);
        let q = a as int / d as int - (b as int / d as int) * (a as int / b as int);
        assert(r as int == d as int * q) by (nonlinear_arith)
            requires
                a as int == b as int * (a as int / b as int) + r as int,
                a as int == d as int * (a as int / d as int),
                b as int == d as int * (b as int / d as int),
                q == a as int / d as int - (b as int / d as int) * (a as int / b as int),
        ;
        vstd::arithmetic::div_mod::lemma_mod_multiples_basic(q, d as int);
        assert(q * d == d * q) by (nonlinear_arith);
        lemma_gcd_greatest(b, r, d);
    }
}

/// Ticks of the system timer per second.
pub const TICK_HZ: u64 = 20_000;

/// `gcd(TICK_HZ, 1_000)`.
pub const GCD_1K: u64 = 1_000;

/// `gcd(TICK_HZ, 1_000_000)`.
pub const GCD_1M: u64 = 20_000;

/// `gcd(TICK_HZ, 1_000_000_000)`.
pub const GCD_1G: u64 = 20_000;

/// The constants are the greatest common divisors they stand for.
pub proof fn lemma_gcd_constants()
    ensures
        GCD_1K == gcd_spec(TICK_HZ, 1_000),
        GCD_1M == gcd_spec(TICK_HZ, 1_000_000),
        GCD_1G == gcd_spec(TICK_HZ, 1_000_000_000),
{
    reveal_with_fuel(gcd_spec, 5);
}

} // verus!
