use vstd::prelude::*;

verus! {

/// Euclid's greatest common divisor.
pub open spec fn spec_gcd(a: nat, b: nat) -> nat
    decreases b,
{
    if b == 0 {
        a
    } else {
        spec_gcd(b, a % b)
    }
}

/// For a nonzero second argument, the gcd is positive and divides both
/// arguments.
pub proof fn lemma_gcd_divides(a: nat, b: nat)
    requires
        b > 0,
    ensures
        spec_gcd(a, b) > 0,
        a % spec_gcd(a, b) == 0,
        b % spec_gcd(a, b) == 0,
    decreases b,
{
    let g = spec_gcd(a, b);
    let r = a % b;
    assert(0 <= r < b);
    if r == 0 {
        assert(g == spec_gcd(b, 0) == b);
        vstd::arithmetic::div_mod::lemma_mod_self_0(b as int);
    } else {
        lemma_gcd_divides(b, r);
        assert(g == spec_gcd(b, r));
        let q = a / b;
        let k1 = b / g;
        let k2 = r / g;
        vstd::arithmetic::div_mod::lemma_fundamental_div_mod(a as int, b as int);
        vstd::arithmetic::div_mod::lemma_fundamental_div_mod(b as int, g as int);
        vstd::arithmetic::div_mod::lemma_fundamental_div_mod(r as int, g as int);
        assert(a == b * q + r);
        assert(b == g * k1);
        assert(r == g * k2);
        assert(a == g * (k1 * q + k2)) by (nonlinear_arith)
            requires
                a == b * q + r,
                b == g * k1,
                r == g * k2,
        ;
        vstd::arithmetic::div_mod::lemma_mod_multiples_basic((k1 * q + k2) as int, g as int);
        assert((g * (k1 * q + k2)) as int == ((k1 * q + k2) as int) * (g as int))
            by (nonlinear_arith);
    }
}

/// The fraction `n/d` in lowest terms.
pub open spec fn spec_reduce(n: u128, d: u128) -> (u128, u128) {
    let g = spec_gcd(n as nat, d as nat);
    (((n as nat) / g) as u128, ((d as nat) / g) as u128)
}

/// The reduced pair multiplies back to the given pair by the gcd, keeps a
/// nonzero denominator, and denotes the same rational value.
pub proof fn lemma_reduce_props(n: u128, d: u128)
    requires
        d != 0,
    ensures
        (spec_reduce(n, d).0 as nat) * spec_gcd(n as nat, d as nat) == n as nat,
        (spec_reduce(n, d).1 as nat) * spec_gcd(n as nat, d as nat) == d as nat,
        spec_reduce(n, d).1 != 0,
        (spec_reduce(n, d).0 as int) * (d as int) == (n as int) * (spec_reduce(n, d).1 as int),
{
    let g = spec_gcd(n as nat, d as nat);
    lemma_gcd_divides(n as nat, d as nat);
    vstd::arithmetic::div_mod::lemma_fundamental_div_mod(n as int, g as int);
    vstd::arithmetic::div_mod::lemma_fundamental_div_mod(d as int, g as int);
    let n0 = (n as nat) / g;
    let d0 = (d as nat) / g;
    assert(n as nat == g * n0);
    assert(d as nat == g * d0);
    assert(n0 <= n as nat) by (nonlinear_arith)
        requires
            g >= 1,
            n as nat == g * n0,
    ;
    assert(d0 <= d as nat) by (nonlinear_arith)
        requires
            g >= 1,
            d as nat == g * d0,
    ;
    assert(d0 != 0) by (nonlinear_arith)
        requires
            d as nat == g * d0,
            d != 0,
    ;
    let r = spec_reduce(n, d);
    assert(r.0 as nat == n0);
    assert(r.1 as nat == d0);
    assert(n0 * g == g * n0) by (nonlinear_arith);
    assert(d0 * g == g * d0) by (nonlinear_arith);
    assert(n0 * (g * d0) == (g * n0) * d0) by (nonlinear_arith);
    assert((n0 as int) * (d as int) == (n as int) * (d0 as int));
}

/// Relies on `num_rational::Ratio::<u128>::new`, which puts the fraction
/// in lowest terms: numerator and denominator are both divided by their
/// greatest common divisor (zero reduces to `0/1`).
#[verifier::external_body]
pub(crate) fn reduce_ratio(n: u128, d: u128) -> (r: (u128, u128))
    requires
        d != 0,
    ensures
        r == spec_reduce(n, d),
{
    let q = num_rational::Ratio::new(n, d);
    (*q.numer(), *q.denom())
}

} // verus!
