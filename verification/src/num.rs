//! Fixed-point arithmetic primitives.
//!
//! A scalar is an `i64` counting units of `1 / SCALE`. This module holds the
//! global range limits, truncating division on signed values, and the integer
//! square root, each with an exact contract.

use vstd::prelude::*;

verus! {

/// Number of fixed-point units per whole unit (2^30).
pub const SCALE: i64 = 0x4000_0000;

/// Every coordinate of a region handled by the tree lies in
/// `[-QUAD_LIMIT, QUAD_LIMIT]` (2^39 units, about 512 whole units).
pub const QUAD_LIMIT: i64 = 0x80_0000_0000;

/// Largest admissible mass of a single body (2^40 units).
pub const BODY_MASS_LIMIT: i64 = 0x100_0000_0000;

/// Largest admissible total mass of a tree (2^62 units).
pub const MASS_LIMIT: i64 = 0x4000_0000_0000_0000;

/// Largest admissible number of bodies per tree (2^22).
pub const COUNT_LIMIT: usize = 0x40_0000;

/// Largest admissible opening-angle threshold (2^32 units, i.e. 4 whole
/// units; the practical range is 0 to 1).
pub const THETA_LIMIT: i64 = 0x1_0000_0000;

/// Positions and velocities handed to the integrator lie within
/// `[-COORD_LIMIT, COORD_LIMIT]` (2^36 units, 64 whole units).
pub const COORD_LIMIT: i64 = 0x10_0000_0000;

/// Cap on the per-step velocity change admitted by the integrator (2^46
/// units).
pub const DV_LIMIT: i64 = 0x4000_0000_0000;

/// Truncating (round-toward-zero) division, the rounding rule of the
/// executable code. Callers must ensure `d > 0`. On non-negative `n` it
/// agrees with Euclidean division.
pub open spec fn div_trunc(n: int, d: int) -> int {
    if n >= 0 {
        n / d
    } else {
        -((-n) / d)
    }
}

/// Floor of the square root, defined by counting up.
pub open spec fn sqrt_floor(n: nat) -> nat
    decreases n,
{
    if n == 0 {
        0
    } else {
        let s = sqrt_floor((n - 1) as nat);
        if (s + 1) * (s + 1) <= n {
            s + 1
        } else {
            s
        }
    }
}

/// `sqrt_floor(n)` is the unique natural `r` with `r^2 <= n < (r+1)^2`.
pub proof fn lemma_sqrt_floor(n: nat)
    ensures
        sqrt_floor(n) * sqrt_floor(n) <= n,
        n < (sqrt_floor(n) + 1) * (sqrt_floor(n) + 1),
    decreases n,
{
    if n == 0 {
        assert(sqrt_floor(0) == 0);
        assert((sqrt_floor(n) + 1) * (sqrt_floor(n) + 1) == 1) by (nonlinear_arith)
            requires sqrt_floor(n) == 0;
    } else {
        lemma_sqrt_floor((n - 1) as nat);
        let s = sqrt_floor((n - 1) as nat);
        let r = sqrt_floor(n);
        assert(s * s <= n - 1);
        assert(n - 1 < (s + 1) * (s + 1));
        if (s + 1) * (s + 1) <= n {
            assert(r == s + 1);
            assert(n <= (s + 1) * (s + 1));
            assert((s + 2) * (s + 2) > (s + 1) * (s + 1)) by (nonlinear_arith);
            assert(n < (r + 1) * (r + 1));
        } else {
            assert(r == s);
        }
    }
}

/// Any `r` in the square-root-floor position equals `sqrt_floor(n)`.
pub proof fn lemma_sqrt_floor_unique(n: nat, r: nat)
    requires
        r * r <= n,
        n < (r + 1) * (r + 1),
    ensures
        r == sqrt_floor(n),
{
    lemma_sqrt_floor(n);
    let s = sqrt_floor(n);
    if r < s {
        assert((r + 1) * (r + 1) <= s * s) by (nonlinear_arith)
            requires r + 1 <= s;
    }
    if s < r {
        assert((s + 1) * (s + 1) <= r * r) by (nonlinear_arith)
            requires s + 1 <= r;
    }
}

/// Truncating division of a signed 128-bit value by a positive divisor.
pub fn div_trunc_i128(n: i128, d: i128) -> (r: i128)
    requires
        0 < d,
        i128::MIN < n,
    ensures
        r == div_trunc(n as int, d as int),
{
    if n >= 0 {
        let q: u128 = (n as u128) / (d as u128);
        q as i128
    } else {
        let m: u128 = ((-n) as u128) / (d as u128);
        proof {
            assert((-n) as u128 as int == -(n as int));
            vstd::arithmetic::div_mod::lemma_div_nonincreasing(-(n as int), d as int);
        }
        -(m as i128)
    }
}

/// The quotient of a truncating division lies between the integer bounds of
/// the exact quotient: if `lo*d <= n <= hi*d` then `lo <= div_trunc(n,d) <= hi`.
pub proof fn lemma_div_trunc_between(n: int, d: int, lo: int, hi: int)
    requires
        0 < d,
        lo * d <= n,
        n <= hi * d,
    ensures
        lo <= div_trunc(n, d),
        div_trunc(n, d) <= hi,
{
    if n >= 0 {
        vstd::arithmetic::div_mod::lemma_div_is_ordered(n, hi * d, d);
        assert(hi * d == d * hi) by (nonlinear_arith);
        vstd::arithmetic::div_mod::lemma_div_multiples_vanish(hi, d);
        if lo >= 0 {
            vstd::arithmetic::div_mod::lemma_div_is_ordered(lo * d, n, d);
            assert(lo * d == d * lo) by (nonlinear_arith);
            vstd::arithmetic::div_mod::lemma_div_multiples_vanish(lo, d);
        } else {
            vstd::arithmetic::div_mod::lemma_div_pos_is_pos(n, d);
        }
    } else {
        let m = -n;
        assert((-lo) * d == -(lo * d) && (-lo) * d == d * (-lo)) by (nonlinear_arith);
        vstd::arithmetic::div_mod::lemma_div_is_ordered(m, (-lo) * d, d);
        vstd::arithmetic::div_mod::lemma_div_multiples_vanish(-lo, d);
        if hi <= 0 {
            assert((-hi) * d == -(hi * d) && (-hi) * d == d * (-hi)) by (nonlinear_arith);
            vstd::arithmetic::div_mod::lemma_div_is_ordered((-hi) * d, m, d);
            vstd::arithmetic::div_mod::lemma_div_multiples_vanish(-hi, d);
        } else {
            vstd::arithmetic::div_mod::lemma_div_pos_is_pos(m, d);
        }
    }
}

/// Exact division: when `d` divides `n`, truncation changes nothing.
pub proof fn lemma_div_trunc_exact(q: int, d: int)
    requires
        0 < d,
    ensures
        div_trunc(q * d, d) == q,
{
    lemma_div_trunc_between(q * d, d, q, q);
}

/// Truncating division keeps the magnitude bound `|n| <= b*d  ==>  |q| <= b`.
pub proof fn lemma_div_trunc_abs_bound(n: int, d: int, b: int)
    requires
        0 < d,
        0 <= b,
        -(b * d) <= n,
        n <= b * d,
    ensures
        -b <= div_trunc(n, d),
        div_trunc(n, d) <= b,
{
    assert((-b) * d == -(b * d)) by (nonlinear_arith);
    lemma_div_trunc_between(n, d, -b, b);
}

/// Magnitude bound of a product: `|x| <= bx` and `0 <= y <= by` bound
/// `x * y` by `bx * by` in magnitude.
pub proof fn lemma_mul_abs_bound(x: int, y: int, bx: int, by: int)
    requires
        -bx <= x <= bx,
        0 <= y <= by,
    ensures
        -(bx * by) <= x * y <= bx * by,
{
    assert(-(bx * by) <= x * y <= bx * by) by (nonlinear_arith)
        requires -bx <= x <= bx, 0 <= y <= by;
}

/// Whether `n` is a power of two.
pub open spec fn is_pow2(n: int) -> bool
    decreases n,
{
    if n <= 0 {
        false
    } else if n == 1 {
        true
    } else {
        n % 2 == 0 && is_pow2(n / 2)
    }
}

/// Truncating division keeps a magnitude bound through the division:
/// `|n| <= b` gives `|n / d| <= b / d`.
pub proof fn lemma_div_trunc_mono_abs(n: int, b: int, d: int)
    requires
        0 < d,
        -b <= n <= b,
    ensures
        -(b / d) <= div_trunc(n, d) <= b / d,
{
    if n >= 0 {
        vstd::arithmetic::div_mod::lemma_div_is_ordered(n, b, d);
        vstd::arithmetic::div_mod::lemma_div_pos_is_pos(n, d);
    } else {
        vstd::arithmetic::div_mod::lemma_div_is_ordered(-n, b, d);
        vstd::arithmetic::div_mod::lemma_div_pos_is_pos(-n, d);
    }
}

/// Magnitude of an integer.
pub open spec fn abs_i(x: int) -> int {
    if x >= 0 {
        x
    } else {
        -x
    }
}

/// Sign of an integer: `-1`, `0` or `1`.
pub open spec fn sign(x: int) -> int {
    if x > 0 {
        1int
    } else if x == 0 {
        0int
    } else {
        -1int
    }
}

/// A square is bounded by the square of the bound.
pub proof fn lemma_square_bound(x: int, b: int)
    requires
        -b <= x <= b,
    ensures
        0 <= x * x <= b * b,
{
    assert(0 <= x * x <= b * b) by (nonlinear_arith)
        requires -b <= x <= b;
}

/// Scaling a proper fraction down: for `0 <= a <= d`, `(m * a) / d <= m`.
pub proof fn lemma_mul_div_le(m: int, a: int, d: int)
    requires
        0 <= m,
        0 <= a <= d,
        0 < d,
    ensures
        0 <= (m * a) / d <= m,
{
    assert(0 <= m * a <= m * d && m * d == d * m) by (nonlinear_arith)
        requires 0 <= m, 0 <= a <= d;
    vstd::arithmetic::div_mod::lemma_div_is_ordered(m * a, m * d, d);
    vstd::arithmetic::div_mod::lemma_div_multiples_vanish(m, d);
    vstd::arithmetic::div_mod::lemma_div_pos_is_pos(m * a, d);
}

/// A positive value has a positive square-root floor.
pub proof fn lemma_sqrt_floor_pos(n: nat)
    requires
        1 <= n,
    ensures
        1 <= sqrt_floor(n),
{
    lemma_sqrt_floor(n);
    if sqrt_floor(n) == 0 {
        assert((sqrt_floor(n) + 1) * (sqrt_floor(n) + 1) == 1) by (nonlinear_arith)
            requires sqrt_floor(n) == 0;
    }
}

/// A coordinate is bounded by the square root of the squared distance:
/// `a*a <= n` gives `|a| <= sqrt_floor(n)`.
pub proof fn lemma_abs_le_sqrt(a: int, n: nat)
    requires
        a * a <= n,
    ensures
        abs_i(a) <= sqrt_floor(n),
{
    lemma_sqrt_floor(n);
    let r = sqrt_floor(n);
    if abs_i(a) > r {
        assert(n < abs_i(a) * abs_i(a)) by (nonlinear_arith)
            requires r + 1 <= abs_i(a), n < (r + 1) * (r + 1), 0 <= r;
        assert(abs_i(a) * abs_i(a) == a * a) by (nonlinear_arith);
    }
}

/// Floor of the square root of an unsigned 128-bit value, by binary search.
pub fn isqrt_u128(n: u128) -> (r: u128)
    requires
        n < 0x4000_0000_0000_0000_0000_0000_0000_0000u128,
    ensures
        r as nat == sqrt_floor(n as nat),
        r * r <= n,
{
    let mut lo: u128 = 0;
    let mut hi: u128 = 0x8000_0000_0000_0000u128;
    proof {
        assert((hi as int) * (hi as int) > n as int);
    }
    while lo + 1 < hi
        invariant
            lo < hi,
            hi <= 0x8000_0000_0000_0000u128,
            (lo as int) * (lo as int) <= n as int,
            (n as int) < (hi as int) * (hi as int),
        decreases hi - lo,
    {
        let mid: u128 = lo + (hi - lo) / 2;
        assert(lo < mid < hi);
        assert(mid * mid < 0x4000_0000_0000_0000_0000_0000_0000_0000u128 * 2) by (nonlinear_arith)
            requires mid <= 0x8000_0000_0000_0000u128;
        if mid * mid <= n {
            lo = mid;
        } else {
            hi = mid;
        }
    }
    proof {
        lemma_sqrt_floor_unique(n as nat, lo as nat);
    }
    lo
}

} // verus!
