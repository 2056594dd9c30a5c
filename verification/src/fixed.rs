//! Fixed-point arithmetic: the numeric ground the renderer stands on.
//!
//! An `i64` value `v` encodes the real number `v / FX_ONE`. All rounding is
//! truncation toward zero, mirrored exactly by the spec function `div_trunc`.

use vstd::prelude::*;

verus! {

/// One whole unit of the fixed-point encoding: `v: i64` stands for `v / FX_ONE`.
pub const FX_ONE: i64 = 65536;

/// `FX_ONE` as a mathematical integer.
pub open spec fn fx_one_int() -> int {
    65536
}

/// Truncating division (round toward zero) for a positive divisor; the
/// rounding used by every fixed-point operation of this library.
pub open spec fn div_trunc(a: int, b: int) -> int
    recommends
        b >= 1,
{
    if a >= 0 {
        a / b
    } else {
        -((-a) / b)
    }
}

/// `a * b` in the fixed-point encoding.
pub open spec fn fx_mul_spec(a: int, b: int) -> int {
    div_trunc(a * b, fx_one_int())
}

/// `a / b` in the fixed-point encoding, for `b >= 1`.
pub open spec fn fx_div_spec(a: int, b: int) -> int
    recommends
        b >= 1,
{
    div_trunc(a * fx_one_int(), b)
}

/// Largest `r >= 0` with `r * r <= n` (0 for negative `n`).
pub open spec fn sqrt_floor(n: int) -> int
    decreases n,
{
    if n <= 0 {
        0
    } else {
        let r = sqrt_floor(n - 1);
        if (r + 1) * (r + 1) <= n {
            r + 1
        } else {
            r
        }
    }
}

/// Square root in the fixed-point encoding: `sqrt(v / FX_ONE) * FX_ONE`,
/// rounded down.
pub open spec fn fx_sqrt_spec(v: int) -> int {
    sqrt_floor(v * fx_one_int())
}

pub proof fn lemma_div_trunc_sign(a: int, b: int)
    requires
        b >= 1,
    ensures
        a >= 0 ==> div_trunc(a, b) >= 0,
        a <= 0 ==> div_trunc(a, b) <= 0,
        a >= 0 ==> b * div_trunc(a, b) <= a,
        a <= 0 ==> b * div_trunc(a, b) >= a,
        a >= 0 ==> b * div_trunc(a, b) > a - b,
        a <= 0 ==> b * div_trunc(a, b) < a + b,
{
    if a >= 0 {
        vstd::arithmetic::div_mod::lemma_div_pos_is_pos(a, b);
        vstd::arithmetic::div_mod::lemma_fundamental_div_mod(a, b);
        vstd::arithmetic::div_mod::lemma_mod_bound(a, b);
    } else {
        vstd::arithmetic::div_mod::lemma_div_pos_is_pos(-a, b);
        vstd::arithmetic::div_mod::lemma_fundamental_div_mod(-a, b);
        vstd::arithmetic::div_mod::lemma_mod_bound(-a, b);
        let q = (-a) / b;
        assert(b * (-q) == -(b * q)) by (nonlinear_arith);
    }
}

/// Magnitude of a truncating quotient: `|q| * b <= |a|`.
pub proof fn lemma_div_trunc_magnitude(a: int, b: int)
    requires
        b >= 1,
    ensures
        a >= 0 ==> 0 <= b * div_trunc(a, b) <= a,
        a <= 0 ==> a <= b * div_trunc(a, b) <= 0,
{
    lemma_div_trunc_sign(a, b);
    let q = div_trunc(a, b);
    if a >= 0 {
        vstd::arithmetic::mul::lemma_mul_nonnegative(b, q);
    } else {
        assert(b * q <= 0) by (nonlinear_arith)
            requires
                b >= 1,
                q <= 0,
        ;
    }
}

/// Truncating division is monotone in the dividend.
pub proof fn lemma_div_trunc_ordered(a1: int, a2: int, b: int)
    requires
        b >= 1,
        a1 <= a2,
    ensures
        div_trunc(a1, b) <= div_trunc(a2, b),
{
    if a1 >= 0 {
        vstd::arithmetic::div_mod::lemma_div_is_ordered(a1, a2, b);
    } else if a2 <= 0 {
        vstd::arithmetic::div_mod::lemma_div_is_ordered(-a2, -a1, b);
    } else {
        lemma_div_trunc_sign(a1, b);
        lemma_div_trunc_sign(a2, b);
    }
}

pub proof fn lemma_sqrt_floor_bounds(n: int)
    requires
        n >= 0,
    ensures
        sqrt_floor(n) >= 0,
        sqrt_floor(n) * sqrt_floor(n) <= n,
        n < (sqrt_floor(n) + 1) * (sqrt_floor(n) + 1),
    decreases n,
{
    if n > 0 {
        lemma_sqrt_floor_bounds(n - 1);
        let r = sqrt_floor(n - 1);
        if (r + 1) * (r + 1) <= n {
            assert(n < (r + 2) * (r + 2)) by (nonlinear_arith)
                requires
                    n - 1 < (r + 1) * (r + 1),
                    r >= 0,
            ;
        }
    }
}

/// Any `r` with `r * r <= n < (r + 1) * (r + 1)` is the floor square root.
pub proof fn lemma_sqrt_floor_unique(n: int, r: int)
    requires
        n >= 0,
        r >= 0,
        r * r <= n,
        n < (r + 1) * (r + 1),
    ensures
        r == sqrt_floor(n),
{
    lemma_sqrt_floor_bounds(n);
    let s = sqrt_floor(n);
    if r < s {
        assert(false) by (nonlinear_arith)
            requires
                0 <= r < s,
                s * s <= n,
                n < (r + 1) * (r + 1),
        ;
    }
    if s < r {
        assert(false) by (nonlinear_arith)
            requires
                0 <= s < r,
                r * r <= n,
                n < (s + 1) * (s + 1),
        ;
    }
}

pub proof fn lemma_sqrt_floor_monotone(n1: int, n2: int)
    requires
        0 <= n1 <= n2,
    ensures
        sqrt_floor(n1) <= sqrt_floor(n2),
{
    lemma_sqrt_floor_bounds(n1);
    lemma_sqrt_floor_bounds(n2);
    let r1 = sqrt_floor(n1);
    let r2 = sqrt_floor(n2);
    if r2 < r1 {
        assert(false) by (nonlinear_arith)
            requires
                0 <= r2 < r1,
                r1 * r1 <= n1,
                n2 < (r2 + 1) * (r2 + 1),
                n1 <= n2,
        ;
    }
}

/// Truncating division of `i128` values by a positive divisor.
pub fn div_trunc_i128(a: i128, b: i128) -> (q: i128)
    requires
        b >= 1,
        a > i128::MIN,
    ensures
        q == div_trunc(a as int, b as int),
{
    proof {
        lemma_div_trunc_magnitude(a as int, b as int);
    }
    if a >= 0 {
        ((a as u128) / (b as u128)) as i128
    } else {
        let m = ((-a) as u128) / (b as u128);
        proof {
            lemma_div_trunc_magnitude(-(a as int), b as int);
        }
        -(m as i128)
    }
}

/// Fixed-point product `a * b / FX_ONE`.
pub fn fx_mul(a: i64, b: i64) -> (r: i64)
    requires
        (a as int) * (b as int) <= 0x7fff_ffff_ffff_ffff * 65536,
        (a as int) * (b as int) >= -0x8000_0000_0000_0000 * 65536,
    ensures
        r == fx_mul_spec(a as int, b as int),
{
    let p: i128 = (a as i128) * (b as i128);
    let q = div_trunc_i128(p, FX_ONE as i128);
    proof {
        lemma_div_trunc_magnitude(p as int, fx_one_int());
    }
    q as i64
}

/// Fixed-point quotient `a * FX_ONE / b`, for `b >= 1`.
pub fn fx_div(a: i64, b: i64) -> (r: i64)
    requires
        b >= 1,
        (a as int) * 65536 <= (b as int) * (i64::MAX as int),
        (a as int) * 65536 >= (b as int) * (i64::MIN as int),
    ensures
        r == fx_div_spec(a as int, b as int),
{
    let p: i128 = (a as i128) * (FX_ONE as i128);
    let q = div_trunc_i128(p, b as i128);
    proof {
        lemma_div_trunc_magnitude(p as int, b as int);
        let t = div_trunc(p as int, b as int);
        assert(t <= i64::MAX) by (nonlinear_arith)
            requires
                b >= 1,
                p <= (b as int) * (i64::MAX as int),
                p >= 0 ==> 0 <= b * t <= p,
                p <= 0 ==> t <= 0,
        ;
        assert(t >= i64::MIN) by (nonlinear_arith)
            requires
                b >= 1,
                p >= (b as int) * (i64::MIN as int),
                p >= 0 ==> t >= 0,
                p <= 0 ==> p <= b * t <= 0,
        ;
    }
    q as i64
}

/// Floor square root of a `u128`.
pub fn isqrt_u128(n: u128) -> (r: u64)
    ensures
        r as int == sqrt_floor(n as int),
{
    let mut lo: u128 = 0;
    let mut hi: u128 = 0x1_0000_0000_0000_0000;
    proof {
        assert((hi as int) * (hi as int) > n as int) by (nonlinear_arith)
            requires
                hi == 0x1_0000_0000_0000_0000,
                n <= u128::MAX,
        ;
    }
    while lo + 1 < hi
        invariant
            0 <= lo < hi <= 0x1_0000_0000_0000_0000,
            (lo as int) * (lo as int) <= n as int,
            (n as int) < (hi as int) * (hi as int),
        decreases hi - lo,
    {
        let mid = lo + (hi - lo) / 2;
        proof {
            assert((mid as int) * (mid as int) <= u128::MAX) by (nonlinear_arith)
                requires
                    0 <= mid < 0x1_0000_0000_0000_0000,
            ;
        }
        if mid * mid <= n {
            lo = mid;
        } else {
            hi = mid;
        }
    }
    proof {
        lemma_sqrt_floor_unique(n as int, lo as int);
    }
    lo as u64
}

/// Fixed-point square root: `sqrt_floor(v * FX_ONE)` for `v >= 0`.
pub fn fx_sqrt(v: i64) -> (r: i64)
    requires
        v >= 0,
    ensures
        r == fx_sqrt_spec(v as int),
        r >= 0,
        r * r <= v * 65536,
{
    proof {
        assert((v as int) * 65536 <= 0x7fff_ffff_ffff_ffff * 65536) by (nonlinear_arith)
            requires
                0 <= v <= i64::MAX,
        ;
    }
    let n: u128 = (v as u128) * (FX_ONE as u128);
    let s = isqrt_u128(n);
    proof {
        lemma_sqrt_floor_bounds(n as int);
        assert(sqrt_floor(n as int) < 0x1_0000_0000_0000) by (nonlinear_arith)
            requires
                sqrt_floor(n as int) >= 0,
                sqrt_floor(n as int) * sqrt_floor(n as int) <= n as int,
                n as int <= 0x7fff_ffff_ffff_ffff * 65536,
        ;
    }
    s as i64
}

/// The circle constant in the fixed-point encoding, rounded down.
pub const PI_FX: i64 = 205887;

/// Degrees to radians: `deg * pi / 180`.
pub fn deg_to_rad(deg: i64) -> (r: i64)
    requires
        -0x40_0000_0000 <= deg <= 0x40_0000_0000,
    ensures
        r == div_trunc(fx_mul_spec(deg as int, PI_FX as int), 180),
{
    proof {
        assert(-0x40_0000_0000 * 205887 <= (deg as int) * 205887 <= 0x40_0000_0000 * 205887)
            by (nonlinear_arith)
            requires
                -0x40_0000_0000 <= deg <= 0x40_0000_0000,
        ;
        lemma_div_trunc_magnitude((deg as int) * 205887, fx_one_int());
    }
    let p = fx_mul(deg, PI_FX);
    let q = div_trunc_i128(p as i128, 180);
    proof {
        lemma_div_trunc_magnitude(p as int, 180);
    }
    q as i64
}

/// Fixed-point square roots are monotone.
pub proof fn lemma_fx_sqrt_monotone(a: int, b: int)
    requires
        0 <= a <= b,
    ensures
        fx_sqrt_spec(a) <= fx_sqrt_spec(b),
{
    lemma_sqrt_floor_monotone(a * fx_one_int(), b * fx_one_int());
}

} // verus!
