//! Integer arithmetic shared by the geometry: rounded-up square roots and
//! division rounded to the nearest integer.

use vstd::prelude::*;

verus! {

/// Number of fixed-point units in one map unit.
pub const SCALE: i64 = 1000;

/// The length of a unit heading: headings, and the cosine and sine of an
/// angle, are counted in millionths.
pub const HEADING_SCALE: i64 = 1_000_000;

/// `s` is the least natural number whose square reaches `n`.
pub open spec fn is_sqrt_ceil(n: nat, s: nat) -> bool {
    &&& s * s >= n
    &&& s > 0 ==> (s - 1) * (s - 1) < n
}

/// The square root of `n`, rounded up to a whole number.
pub open spec fn sqrt_ceil(n: nat) -> nat {
    choose|s: nat| is_sqrt_ceil(n, s)
}

/// Squaring is monotone on the natural numbers.
pub proof fn lemma_square_monotone(a: nat, b: nat)
    requires
        a <= b,
    ensures
        a * a <= b * b,
{
    assert(a * a <= b * b) by (nonlinear_arith)
        requires
            0 <= a <= b,
    ;
}

/// The rounded-up square root is determined by its defining property.
pub proof fn lemma_sqrt_ceil_unique(n: nat, s: nat)
    requires
        is_sqrt_ceil(n, s),
    ensures
        sqrt_ceil(n) == s,
{
    let t = sqrt_ceil(n);
    assert(is_sqrt_ceil(n, t));
    if t < s {
        lemma_square_monotone(t, (s - 1) as nat);
    } else if s < t {
        lemma_square_monotone(s, (t - 1) as nat);
    }
}

/// Some candidate at or below `s` is the rounded-up square root of `n`.
proof fn lemma_sqrt_ceil_search(n: nat, s: nat)
    requires
        s * s >= n,
    ensures
        exists|t: nat| is_sqrt_ceil(n, t),
    decreases s,
{
    if s == 0 || (s - 1) * (s - 1) < n {
        assert(is_sqrt_ceil(n, s));
    } else {
        lemma_sqrt_ceil_search(n, (s - 1) as nat);
    }
}

/// Every natural number has a rounded-up square root.
pub proof fn lemma_sqrt_ceil_exists(n: nat)
    ensures
        is_sqrt_ceil(n, sqrt_ceil(n)),
{
    assert(n * n >= n) by (nonlinear_arith);
    lemma_sqrt_ceil_search(n, n);
}

/// A bound `r` holds of the rounded-up root exactly when its square holds
/// of the number: rounding up loses nothing against whole bounds.
pub proof fn lemma_sqrt_ceil_le(n: nat, r: nat)
    ensures
        sqrt_ceil(n) <= r <==> n <= r * r,
{
    lemma_sqrt_ceil_exists(n);
    let s = sqrt_ceil(n);
    if s <= r {
        lemma_square_monotone(s, r);
    } else {
        lemma_square_monotone(r, (s - 1) as nat);
    }
}

/// Computes the square root of `n`, rounded up.
pub fn compute_sqrt_ceil(n: u128) -> (root: u128)
    ensures
        root == sqrt_ceil(n as nat),
        is_sqrt_ceil(n as nat, root as nat),
        root <= 0x1_0000_0000_0000_0000,
{
    if n == 0 {
        proof {
            lemma_sqrt_ceil_unique(0, 0);
        }
        return 0;
    }
    let mut lo: u128 = 0;
    let mut hi: u128 = 0x1_0000_0000_0000_0000;
    assert(hi * hi > n) by (nonlinear_arith)
        requires
            hi == 0x1_0000_0000_0000_0000,
            n <= u128::MAX,
    ;
    while hi - lo > 1
        invariant
            lo < hi <= 0x1_0000_0000_0000_0000,
            lo * lo < n,
            hi * hi >= n,
        decreases hi - lo,
    {
        let mid: u128 = lo + (hi - lo) / 2;
        assert(mid * mid <= u128::MAX) by (nonlinear_arith)
            requires
                mid < 0x1_0000_0000_0000_0000,
        ;
        if mid * mid >= n {
            hi = mid;
        } else {
            lo = mid;
        }
    }
    proof {
        lemma_sqrt_ceil_unique(n as nat, hi as nat);
    }
    hi
}

/// `a / b` rounded to the nearest integer, a tie going to the larger one.
/// Meant for a positive divisor.
pub open spec fn round_div(a: int, b: int) -> int
    recommends
        b > 0,
{
    (2 * a + b) / (2 * b)
}

/// The rounded quotient lies within half a divisor of the exact one.
pub proof fn lemma_round_div_bounds(a: int, b: int)
    requires
        b > 0,
    ensures
        2 * b * round_div(a, b) <= 2 * a + b < 2 * b * round_div(a, b) + 2 * b,
{
    vstd::arithmetic::div_mod::lemma_fundamental_div_mod(2 * a + b, 2 * b);
    vstd::arithmetic::div_mod::lemma_mod_bound(2 * a + b, 2 * b);
}

/// Any integer within half a divisor of the exact quotient, in the sense of
/// `lemma_round_div_bounds`, is the rounded quotient.
pub proof fn lemma_round_div_unique(a: int, b: int, q: int)
    requires
        b > 0,
        2 * b * q <= 2 * a + b < 2 * b * q + 2 * b,
    ensures
        round_div(a, b) == q,
{
    let r = 2 * a + b - 2 * b * q;
    assert(2 * a + b == q * (2 * b) + r) by (nonlinear_arith)
        requires
            r == 2 * a + b - 2 * b * q,
    ;
    vstd::arithmetic::div_mod::lemma_fundamental_div_mod_converse(2 * a + b, 2 * b, q, r);
}

/// Rounded division by a fixed positive divisor keeps the order of the
/// dividends.
pub proof fn lemma_round_div_monotone(a1: int, a2: int, b: int)
    requires
        b > 0,
        a1 <= a2,
    ensures
        round_div(a1, b) <= round_div(a2, b),
{
    vstd::arithmetic::div_mod::lemma_div_is_ordered(2 * a1 + b, 2 * a2 + b, 2 * b);
}

/// A whole multiple of the divisor divides without rounding.
pub proof fn lemma_round_div_multiple(m: int, b: int)
    requires
        b > 0,
    ensures
        round_div(m * b, b) == m,
{
    assert(2 * b * m <= 2 * (m * b) + b < 2 * b * m + 2 * b) by (nonlinear_arith)
        requires
            b > 0,
    ;
    lemma_round_div_unique(m * b, b, m);
}

/// A dividend between `-m` and `m` times the divisor has its rounded
/// quotient between `-m` and `m`.
pub proof fn lemma_round_div_range(a: int, b: int, m: int)
    requires
        b > 0,
        -(m * b) <= a <= m * b,
    ensures
        -m <= round_div(a, b) <= m,
{
    lemma_round_div_multiple(m, b);
    lemma_round_div_multiple(-m, b);
    assert((-m) * b == -(m * b)) by (nonlinear_arith);
    lemma_round_div_monotone(a, m * b, b);
    lemma_round_div_monotone((-m) * b, a, b);
}

/// Computes `round_div(a, b)` for a positive divisor.
pub fn compute_round_div(a: i128, b: i128) -> (q: i128)
    requires
        0 < b <= 0x1000_0000_0000_0000_0000_0000_0000_0000,
        -0x1000_0000_0000_0000_0000_0000_0000_0000 <= a <= 0x1000_0000_0000_0000_0000_0000_0000_0000,
    ensures
        q == round_div(a as int, b as int),
{
    let num: i128 = 2 * a + b;
    let den: i128 = 2 * b;
    if num >= 0 {
        let q: i128 = num / den;
        q
    } else {
        let pos: i128 = -num;
        let up: i128 = (pos + (den - 1)) / den;
        proof {
            let u = up as int;
            vstd::arithmetic::div_mod::lemma_fundamental_div_mod(pos + (den - 1), den as int);
            vstd::arithmetic::div_mod::lemma_mod_bound(pos + (den - 1), den as int);
            assert(den * u <= pos + den - 1 < den * u + den);
            assert(2 * b * (-u) == -(den * u)) by (nonlinear_arith)
                requires
                    den == 2 * b,
            ;
            lemma_round_div_unique(a as int, b as int, -u);
        }
        -up
    }
}

} // verus!
