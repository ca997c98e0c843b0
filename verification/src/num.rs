//! Fixed-point arithmetic helpers: truncating division, coordinate
//! clamping and an integer square root.

use vstd::prelude::*;

verus! {

/// Coordinate units per world unit: positions are stored in millionths.
pub const SCALE: i64 = 1_000_000;

/// Every coordinate a node may hold lies in `[-COORD_LIMIT, COORD_LIMIT]`.
pub const COORD_LIMIT: i64 = 100_000_000_000_000;

/// Largest displacement magnitude `add_clamp` accepts; wide enough for
/// every correction the constraint rules can compute.
pub const DELTA_LIMIT: i128 = 1_000_000_000_000_000_000_000_000_000_000_000_000;

/// Random wind samples are uniform in `[0, UNIT_DENOM)`, read as a
/// fraction of one.
pub const UNIT_DENOM: u64 = 1_000_000;

/// Division that rounds toward zero (the divisor must be positive).
pub open spec fn tdiv(a: int, b: int) -> int {
    if a >= 0 {
        a / b
    } else {
        -((-a) / b)
    }
}

/// Clamp an unbounded value into the coordinate range.
pub open spec fn clamp_coord(v: int) -> int {
    if v > COORD_LIMIT as int {
        COORD_LIMIT as int
    } else if v < -(COORD_LIMIT as int) {
        -(COORD_LIMIT as int)
    } else {
        v
    }
}

/// The floor of the square root of a natural number.
pub closed spec fn sqrt_floor(n: nat) -> nat {
    choose|r: nat| (#[trigger] (r * r)) <= n < (r + 1) * (r + 1)
}

/// A square root floor exists for every natural number.
pub proof fn lemma_sqrt_exists(n: nat)
    ensures
        exists|r: nat| (#[trigger] (r * r)) <= n < (r + 1) * (r + 1),
    decreases n,
{
    if n == 0 {
        let z: nat = 0;
        assert(z * z == 0 && (z + 1) * (z + 1) == 1) by (nonlinear_arith)
            requires
                z == 0,
        ;
        assert(z * z <= n < (z + 1) * (z + 1));
    } else {
        lemma_sqrt_exists((n - 1) as nat);
        let r = choose|r: nat| (#[trigger] (r * r)) <= n - 1 < (r + 1) * (r + 1);
        if (r + 1) * (r + 1) <= n {
            // then n - 1 < (r + 1)^2 <= n forces n == (r + 1)^2
            assert((r + 1) * (r + 1) < (r + 2) * (r + 2)) by (nonlinear_arith);
            assert((r + 1) * (r + 1) <= n < ((r + 1) + 1) * ((r + 1) + 1));
        } else {
            assert(r * r <= n < (r + 1) * (r + 1));
        }
    }
}

/// The square root floor is unique.
pub proof fn lemma_sqrt_unique(n: nat, r: nat)
    requires
        r * r <= n < (r + 1) * (r + 1),
    ensures
        r == sqrt_floor(n),
{
    lemma_sqrt_exists(n);
    let q = sqrt_floor(n);
    assert(q * q <= n < (q + 1) * (q + 1));
    if r < q {
        assert((r + 1) * (r + 1) <= q * q) by (nonlinear_arith)
            requires
                r + 1 <= q,
        ;
    }
    if q < r {
        assert((q + 1) * (q + 1) <= r * r) by (nonlinear_arith)
            requires
                q + 1 <= r,
        ;
    }
}

/// The square root floor of a perfect square.
pub proof fn lemma_sqrt_square(d: nat)
    ensures
        sqrt_floor(d * d) == d,
{
    assert(d * d < (d + 1) * (d + 1)) by (nonlinear_arith);
    lemma_sqrt_unique(d * d, d);
}

/// Floor of the square root, by binary search.
pub fn isqrt(n: u128) -> (r: u64)
    ensures
        r as nat == sqrt_floor(n as nat),
{
    let mut lo: u128 = 0;
    let mut hi: u128 = 0x1_0000_0000_0000_0000;
    assert(n < hi * hi) by (nonlinear_arith)
        requires
            hi == 0x1_0000_0000_0000_0000u128,
            n <= u128::MAX,
    ;
    while lo + 1 < hi
        invariant
            lo < hi <= 0x1_0000_0000_0000_0000u128,
            lo * lo <= n,
            n < hi * hi,
        decreases hi - lo,
    {
        let mid: u128 = lo + (hi - lo) / 2;
        assert(lo < mid < hi);
        assert(mid * mid <= u128::MAX) by (nonlinear_arith)
            requires
                mid < 0x1_0000_0000_0000_0000u128,
        ;
        if mid * mid <= n {
            lo = mid;
        } else {
            hi = mid;
        }
    }
    proof {
        lemma_sqrt_unique(n as nat, lo as nat);
    }
    lo as u64
}

/// A common positive factor cancels out of a Euclidean division.
pub proof fn lemma_div_cancel_factor(k: int, a: int, b: int)
    requires
        k > 0,
        b > 0,
        a >= 0,
    ensures
        (k * a) / (k * b) == a / b,
{
    let q = a / b;
    let r = a % b;
    vstd::arithmetic::div_mod::lemma_fundamental_div_mod(a, b);
    vstd::arithmetic::div_mod::lemma_mod_bound(a, b);
    assert(k * a == q * (k * b) + k * r) by (nonlinear_arith)
        requires
            a == b * q + r,
    ;
    assert(0 <= k * r < k * b) by (nonlinear_arith)
        requires
            k > 0,
            0 <= r < b,
    ;
    vstd::arithmetic::div_mod::lemma_fundamental_div_mod_converse(k * a, k * b, q, k * r);
}

/// A common positive factor cancels out of a truncating division.
pub proof fn lemma_tdiv_cancel_factor(k: int, a: int, b: int)
    requires
        k > 0,
        b > 0,
    ensures
        tdiv(k * a, k * b) == tdiv(a, b),
{
    assert(k * b > 0) by (nonlinear_arith)
        requires
            k > 0,
            b > 0,
    ;
    if a >= 0 {
        lemma_div_cancel_factor(k, a, b);
        assert(k * a >= 0) by (nonlinear_arith)
            requires
                k > 0,
                a >= 0,
        ;
    } else {
        lemma_div_cancel_factor(k, -a, b);
        assert(k * a < 0 && -(k * a) == k * (-a)) by (nonlinear_arith)
            requires
                k > 0,
                a < 0,
        ;
    }
}

/// The magnitude of an `i64`, exact even at `i64::MIN`.
pub fn abs_u64(a: i64) -> (m: u64)
    ensures
        m as int == vstd::math::abs(a as int),
{
    if a >= 0 {
        a as u64
    } else {
        (-(a as i128)) as u64
    }
}

/// Truncating division of a sign-and-magnitude value by a positive divisor.
pub fn tdiv_mag(neg: bool, mag: u128, den: u128) -> (q: i128)
    requires
        den > 0,
        mag <= i128::MAX,
    ensures
        q as int == tdiv(if neg { -(mag as int) } else { mag as int }, den as int),
        -(mag as int) <= q as int <= mag as int,
{
    let q0: u128 = mag / den;
    if neg {
        -(q0 as i128)
    } else {
        q0 as i128
    }
}

/// Add a wide displacement to a coordinate and clamp into range.
pub fn add_clamp(x: i64, d: i128) -> (r: i64)
    requires
        -DELTA_LIMIT <= d <= DELTA_LIMIT,
    ensures
        r as int == clamp_coord(x as int + d as int),
{
    let s: i128 = x as i128 + d;
    if s > COORD_LIMIT as i128 {
        COORD_LIMIT
    } else if s < -(COORD_LIMIT as i128) {
        -COORD_LIMIT
    } else {
        s as i64
    }
}

} // verus!
