//! Integer square roots and rounding division.

use vstd::prelude::*;

verus! {

/// The largest natural number whose square is at most `n`.
pub open spec fn int_sqrt(n: nat) -> nat
    decreases n,
{
    if n == 0 {
        0
    } else {
        let s = int_sqrt((n - 1) as nat);
        if (s + 1) * (s + 1) <= n {
            s + 1
        } else {
            s
        }
    }
}

/// `a / b` rounded to the nearest integer, halves rounded up.
pub open spec fn round_div(a: nat, b: nat) -> nat
    recommends
        b > 0,
{
    ((2 * a + b) / (2 * b)) as nat
}

/// `int_sqrt(n)` squared is at most `n`, and the next square is above `n`.
pub proof fn lemma_int_sqrt_bounds(n: nat)
    ensures
        int_sqrt(n) * int_sqrt(n) <= n,
        n < (int_sqrt(n) + 1) * (int_sqrt(n) + 1),
    decreases n,
{
    if n == 0 {
        assert(int_sqrt(0) == 0);
        assert(0 * 0 == 0 && (0 + 1) * (0 + 1) == 1) by (nonlinear_arith);
    } else {
        lemma_int_sqrt_bounds((n - 1) as nat);
        let s = int_sqrt((n - 1) as nat);
        if (s + 1) * (s + 1) <= n {
            assert(int_sqrt(n) == s + 1);
            assert((s + 1) * (s + 1) < (s + 1 + 1) * (s + 1 + 1)) by (nonlinear_arith);
        } else {
            assert(int_sqrt(n) == s);
        }
    }
}

/// Only one number lies between the bounds that `int_sqrt` meets.
pub proof fn lemma_int_sqrt_unique(n: nat, s: nat)
    requires
        s * s <= n,
        n < (s + 1) * (s + 1),
    ensures
        s == int_sqrt(n),
{
    lemma_int_sqrt_bounds(n);
    let r = int_sqrt(n);
    if s < r {
        assert((s + 1) * (s + 1) <= r * r) by (nonlinear_arith)
            requires
                s + 1 <= r,
        ;
    }
    if r < s {
        assert((r + 1) * (r + 1) <= s * s) by (nonlinear_arith)
            requires
                r + 1 <= s,
        ;
    }
}

/// A larger number has no smaller square root.
pub proof fn lemma_int_sqrt_monotonic(a: nat, b: nat)
    requires
        a <= b,
    ensures
        int_sqrt(a) <= int_sqrt(b),
{
    lemma_int_sqrt_bounds(a);
    lemma_int_sqrt_bounds(b);
    let r = int_sqrt(a);
    let s = int_sqrt(b);
    if s < r {
        assert((s + 1) * (s + 1) <= r * r) by (nonlinear_arith)
            requires
                s + 1 <= r,
        ;
    }
}

/// Rounding division keeps the order of its numerators.
pub proof fn lemma_round_div_monotonic(a: nat, b: nat, d: nat)
    requires
        a <= b,
        d > 0,
    ensures
        round_div(a, d) <= round_div(b, d),
{
    vstd::arithmetic::div_mod::lemma_div_is_ordered(
        (2 * a + d) as int,
        (2 * b + d) as int,
        (2 * d) as int,
    );
}

/// Rounding division gives the integer nearest to the quotient: it lies
/// no more than a half away from it.
pub proof fn lemma_round_div_nearest(a: nat, d: nat)
    requires
        d > 0,
    ensures
        2 * a - d < 2 * d * round_div(a, d) <= 2 * a + d,
{
    let n = (2 * a + d) as int;
    let m = (2 * d) as int;
    vstd::arithmetic::div_mod::lemma_fundamental_div_mod(n, m);
    vstd::arithmetic::div_mod::lemma_mod_bound(n, m);
    vstd::arithmetic::div_mod::lemma_div_pos_is_pos(n, m);
    assert(m * (n / m) == 2 * d * (n / m)) by (nonlinear_arith)
        requires
            m == 2 * d,
    ;
}

/// A whole multiple of the divisor is divided without rounding.
pub proof fn lemma_round_div_exact(q: nat, d: nat)
    requires
        d > 0,
    ensures
        round_div(q * d, d) == q,
{
    assert(2 * (q * d) + d == q * (2 * d) + d) by (nonlinear_arith);
    vstd::arithmetic::div_mod::lemma_fundamental_div_mod_converse(
        (2 * (q * d) + d) as int,
        (2 * d) as int,
        q as int,
        d as int,
    );
}

/// The floor of the square root of `n`.
pub fn isqrt(n: u128) -> (r: u128)
    ensures
        r == int_sqrt(n as nat),
        r < 0x1_0000_0000_0000_0000,
{
    let mut lo: u128 = 0;
    let mut hi: u128 = 0x1_0000_0000_0000_0000;
    assert(0x1_0000_0000_0000_0000int * 0x1_0000_0000_0000_0000int > u128::MAX) by (nonlinear_arith);
    while hi - lo > 1
        invariant
            lo < hi <= 0x1_0000_0000_0000_0000,
            lo * lo <= n,
            n < hi * hi,
        decreases hi - lo,
    {
        let mid: u128 = lo + (hi - lo) / 2;
        assert(mid * mid <= u128::MAX) by (nonlinear_arith)
            requires
                mid <= 0xFFFF_FFFF_FFFF_FFFF,
        ;
        if mid * mid <= n {
            lo = mid;
        } else {
            hi = mid;
        }
    }
    proof {
        lemma_int_sqrt_unique(n as nat, lo as nat);
    }
    lo
}

/// `a / b` rounded to the nearest integer, halves rounded up.
pub fn div_round(a: u128, b: u128) -> (q: u128)
    requires
        b > 0,
        2 * a + 2 * b <= u128::MAX,
    ensures
        q == round_div(a as nat, b as nat),
{
    (2 * a + b) / (2 * b)
}

} // verus!
