//! Three-component vectors over the fixed-point encoding, used
//! interchangeably as points, directions and colours.

use vstd::prelude::*;
use crate::fixed::{
    div_trunc, div_trunc_i128, fx_div_spec, fx_mul, fx_mul_spec, fx_one_int, fx_sqrt,
    fx_sqrt_spec, lemma_div_trunc_magnitude, lemma_div_trunc_sign, lemma_sqrt_floor_bounds,
    FX_ONE,
};

verus! {

/// Coordinate bound for points a ray may start from (512 world units).
pub const COORD_BOUND: i64 = 33554432;

/// Component bound for ray directions.
pub const DIR_BOUND: i64 = 33554432;

/// Least raw squared length of a usable ray direction (`|d| >= 1/2`):
/// a shorter direction is degenerate and not a supported input.
pub const DIR_QMIN: i64 = 1073741824;

/// Component bound on the output of `unit`: `2 * FX_ONE`.
pub const UNIT_BOUND: i64 = 131072;

/// The mathematical model of a vector: three unbounded integers, each
/// standing for `FX_ONE`-ths of a world unit.
pub ghost struct V3 {
    pub x: int,
    pub y: int,
    pub z: int,
}

#[derive(Clone, Copy, PartialEq, Eq, Structural, Debug)]
pub struct Vec3 {
    pub x: i64,
    pub y: i64,
    pub z: i64,
}

impl View for Vec3 {
    type V = V3;

    open spec fn view(&self) -> V3 {
        V3 { x: self.x as int, y: self.y as int, z: self.z as int }
    }
}

pub open spec fn in_bounds(v: V3, m: int) -> bool {
    &&& -m <= v.x <= m
    &&& -m <= v.y <= m
    &&& -m <= v.z <= m
}

pub open spec fn v3_zero() -> V3 {
    V3 { x: 0, y: 0, z: 0 }
}

pub open spec fn v3_add(a: V3, b: V3) -> V3 {
    V3 { x: a.x + b.x, y: a.y + b.y, z: a.z + b.z }
}

pub open spec fn v3_sub(a: V3, b: V3) -> V3 {
    V3 { x: a.x - b.x, y: a.y - b.y, z: a.z - b.z }
}

pub open spec fn v3_neg(a: V3) -> V3 {
    V3 { x: -a.x, y: -a.y, z: -a.z }
}

/// Componentwise fixed-point scaling by `k`.
pub open spec fn v3_scale(a: V3, k: int) -> V3 {
    V3 { x: fx_mul_spec(a.x, k), y: fx_mul_spec(a.y, k), z: fx_mul_spec(a.z, k) }
}

/// The raw dot product: no rescaling, so it stands for
/// `FX_ONE * FX_ONE` times the real dot product.
pub open spec fn dot_raw(a: V3, b: V3) -> int {
    a.x * b.x + a.y * b.y + a.z * b.z
}

/// The fixed-point dot product.
pub open spec fn dot_spec(a: V3, b: V3) -> int {
    div_trunc(dot_raw(a, b), fx_one_int())
}

/// The fixed-point length of the normalization divisor used by `unit`.
pub open spec fn norm_len_spec(v: V3) -> int {
    fx_sqrt_spec(dot_spec(v, v))
}

/// The normalized direction, exactly as `unit` computes it.
pub open spec fn v3_unit_spec(v: V3) -> V3 {
    let len = norm_len_spec(v);
    V3 {
        x: fx_div_spec(v.x, len),
        y: fx_div_spec(v.y, len),
        z: fx_div_spec(v.z, len),
    }
}

impl Vec3 {
    pub fn new(x: i64, y: i64, z: i64) -> (r: Vec3)
        ensures
            r@ == (V3 { x: x as int, y: y as int, z: z as int }),
    {
        Vec3 { x, y, z }
    }

    pub fn zeros() -> (r: Vec3)
        ensures
            r@ == v3_zero(),
    {
        Vec3 { x: 0, y: 0, z: 0 }
    }

    pub fn add(&self, o: &Vec3) -> (r: Vec3)
        requires
            in_bounds(self@, 0x2000_0000_0000_0000),
            in_bounds(o@, 0x2000_0000_0000_0000),
        ensures
            r@ == v3_add(self@, o@),
    {
        Vec3 { x: self.x + o.x, y: self.y + o.y, z: self.z + o.z }
    }

    pub fn sub(&self, o: &Vec3) -> (r: Vec3)
        requires
            in_bounds(self@, 0x2000_0000_0000_0000),
            in_bounds(o@, 0x2000_0000_0000_0000),
        ensures
            r@ == v3_sub(self@, o@),
    {
        Vec3 { x: self.x - o.x, y: self.y - o.y, z: self.z - o.z }
    }

    pub fn neg(&self) -> (r: Vec3)
        requires
            in_bounds(self@, 0x2000_0000_0000_0000),
        ensures
            r@ == v3_neg(self@),
    {
        Vec3 { x: -self.x, y: -self.y, z: -self.z }
    }

    /// Fixed-point scaling: each component becomes `c * k / FX_ONE`.
    pub fn scale(&self, k: i64) -> (r: Vec3)
        requires
            -(0x7fff_ffff_ffff_ffff * 0x10000) <= self@.x * k <= 0x7fff_ffff_ffff_ffff
                * 0x10000,
            -(0x7fff_ffff_ffff_ffff * 0x10000) <= self@.y * k <= 0x7fff_ffff_ffff_ffff
                * 0x10000,
            -(0x7fff_ffff_ffff_ffff * 0x10000) <= self@.z * k <= 0x7fff_ffff_ffff_ffff
                * 0x10000,
        ensures
            r@ == v3_scale(self@, k as int),
    {
        Vec3 { x: fx_mul(self.x, k), y: fx_mul(self.y, k), z: fx_mul(self.z, k) }
    }

    /// The raw dot product, wide enough never to overflow for vectors within
    /// the library's coordinate bounds.
    pub fn dot_wide(&self, o: &Vec3) -> (r: i128)
        requires
            in_bounds(self@, 0x4000_0000_0000_0000),
            in_bounds(o@, 0x4000_0000_0000_0000),
        ensures
            r == dot_raw(self@, o@),
    {
        proof {
            lemma_dot_product_bound(self@, o@, 0x4000_0000_0000_0000);
        }
        let px = (self.x as i128) * (o.x as i128);
        let py = (self.y as i128) * (o.y as i128);
        let pz = (self.z as i128) * (o.z as i128);
        px + py + pz
    }

    /// The fixed-point dot product.
    pub fn dot(&self, o: &Vec3) -> (r: i64)
        requires
            in_bounds(self@, 0x40_0000_0000),
            in_bounds(o@, 0x40_0000_0000),
        ensures
            r == dot_spec(self@, o@),
    {
        proof {
            lemma_dot_product_bound(self@, o@, 0x40_0000_0000);
        }
        let w = self.dot_wide(o);
        let q = div_trunc_i128(w, FX_ONE as i128);
        proof {
            lemma_div_trunc_magnitude(w as int, fx_one_int());
        }
        q as i64
    }

    /// The squared magnitude, in the fixed-point encoding.
    pub fn magnitude_squared(&self) -> (r: i64)
        requires
            in_bounds(self@, 0x40_0000_0000),
        ensures
            r == dot_spec(self@, self@),
    {
        self.dot(self)
    }

    /// The direction scaled to (approximately) unit length.
    pub fn unit(&self) -> (r: Vec3)
        requires
            in_bounds(self@, DIR_BOUND as int),
            dot_raw(self@, self@) >= DIR_QMIN,
        ensures
            r@ == v3_unit_spec(self@),
            in_bounds(r@, UNIT_BOUND as int),
            dot_raw(r@, r@) >= fx_one_int() * fx_one_int() - 12 * fx_one_int(),
    {
        proof {
            lemma_unit_bounds(self@);
        }
        let m = self.dot(self);
        let len = fx_sqrt(m);
        let x = div_trunc_i128((self.x as i128) * (FX_ONE as i128), len as i128);
        let y = div_trunc_i128((self.y as i128) * (FX_ONE as i128), len as i128);
        let z = div_trunc_i128((self.z as i128) * (FX_ONE as i128), len as i128);
        Vec3 { x: x as i64, y: y as i64, z: z as i64 }
    }
}

/// Componentwise bounds give a cubic bound on the dot product.
pub proof fn lemma_dot_product_bound(a: V3, b: V3, m: int)
    requires
        m >= 0,
        in_bounds(a, m),
        in_bounds(b, m),
    ensures
        -3 * (m * m) <= dot_raw(a, b) <= 3 * (m * m),
        -(m * m) <= a.x * b.x <= m * m,
        -(m * m) <= a.y * b.y <= m * m,
        -(m * m) <= a.z * b.z <= m * m,
{
    assert(-(m * m) <= a.x * b.x <= m * m) by (nonlinear_arith)
        requires
            -m <= a.x <= m,
            -m <= b.x <= m,
    ;
    assert(-(m * m) <= a.y * b.y <= m * m) by (nonlinear_arith)
        requires
            -m <= a.y <= m,
            -m <= b.y <= m,
    ;
    assert(-(m * m) <= a.z * b.z <= m * m) by (nonlinear_arith)
        requires
            -m <= a.z <= m,
            -m <= b.z <= m,
    ;
}

/// Different componentwise bounds on the two vectors give a product bound.
pub proof fn lemma_dot_product_bound2(a: V3, b: V3, ma: int, mb: int)
    requires
        ma >= 0,
        mb >= 0,
        in_bounds(a, ma),
        in_bounds(b, mb),
    ensures
        -3 * (ma * mb) <= dot_raw(a, b) <= 3 * (ma * mb),
{
    assert(-(ma * mb) <= a.x * b.x <= ma * mb) by (nonlinear_arith)
        requires
            -ma <= a.x <= ma,
            -mb <= b.x <= mb,
            ma >= 0,
            mb >= 0,
    ;
    assert(-(ma * mb) <= a.y * b.y <= ma * mb) by (nonlinear_arith)
        requires
            -ma <= a.y <= ma,
            -mb <= b.y <= mb,
            ma >= 0,
            mb >= 0,
    ;
    assert(-(ma * mb) <= a.z * b.z <= ma * mb) by (nonlinear_arith)
        requires
            -ma <= a.z <= ma,
            -mb <= b.z <= mb,
            ma >= 0,
            mb >= 0,
    ;
}

/// One component of a normalization: bounds on `x * FX_ONE / len`.
proof fn lemma_unit_component(x: int, len: int)
    requires
        len >= 1,
        x * x <= 4 * (len * len),
    ensures
        -131072 <= fx_div_spec(x, len) <= 131072,
        (len * fx_div_spec(x, len)) * (len * fx_div_spec(x, len)) >= x * x * 4294967296
            - 262144 * (len * len),
{
    let u = fx_div_spec(x, len);
    lemma_div_trunc_sign(x * 65536, len);
    lemma_div_trunc_magnitude(x * 65536, len);
    assert(-2 * len <= x <= 2 * len) by (nonlinear_arith)
        requires
            len >= 1,
            x * x <= 4 * (len * len),
    ;
    assert(-131072 <= u <= 131072) by (nonlinear_arith)
        requires
            len >= 1,
            -2 * len <= x <= 2 * len,
            x * 65536 >= 0 ==> 0 <= len * u <= x * 65536,
            x * 65536 <= 0 ==> x * 65536 <= len * u <= 0,
    ;
    assert((len * u) * (len * u) >= x * x * 4294967296 - 262144 * (len * len))
        by (nonlinear_arith)
        requires
            len >= 1,
            -2 * len <= x <= 2 * len,
            x * 65536 >= 0 ==> x * 65536 - len < len * u <= x * 65536,
            x * 65536 <= 0 ==> x * 65536 <= len * u < x * 65536 + len,
    ;
}

/// Bounds for `v3_unit_spec`: the normalization divisor is at least 1, each
/// output component lies within `2 * FX_ONE`, and the output's raw squared
/// length is nearly `FX_ONE * FX_ONE`.
pub proof fn lemma_unit_bounds(v: V3)
    requires
        in_bounds(v, DIR_BOUND as int),
        dot_raw(v, v) >= DIR_QMIN,
    ensures
        1 <= norm_len_spec(v),
        norm_len_spec(v) * norm_len_spec(v) <= dot_raw(v, v),
        v.x * v.x <= 4 * (norm_len_spec(v) * norm_len_spec(v)),
        v.y * v.y <= 4 * (norm_len_spec(v) * norm_len_spec(v)),
        v.z * v.z <= 4 * (norm_len_spec(v) * norm_len_spec(v)),
        in_bounds(v3_unit_spec(v), UNIT_BOUND as int),
        dot_raw(v3_unit_spec(v), v3_unit_spec(v)) >= fx_one_int() * fx_one_int() - 12
            * fx_one_int(),
{
    let q = dot_raw(v, v);
    let m = div_trunc(q, fx_one_int());
    let ms = m * fx_one_int();
    let len = norm_len_spec(v);
    lemma_div_trunc_sign(q, fx_one_int());
    assert(q - 65536 < ms <= q);
    lemma_sqrt_floor_bounds(ms);
    assert(len == crate::fixed::sqrt_floor(ms));
    assert(len >= 0 && len * len <= ms && ms < (len + 1) * (len + 1));
    // The squared divisor sits just below q, so it is large and close.
    assert(len >= 256) by (nonlinear_arith)
        requires
            q >= 1073741824,
            ms > q - 65536,
            ms < (len + 1) * (len + 1),
            len >= 0,
    ;
    assert(4 * (len * len) >= q) by (nonlinear_arith)
        requires
            len >= 256,
            ms > q - 65536,
            ms < (len + 1) * (len + 1),
            q >= 1073741824,
    ;
    assert(v.x * v.x + v.y * v.y + v.z * v.z == q);
    assert(v.x * v.x >= 0 && v.y * v.y >= 0 && v.z * v.z >= 0) by (nonlinear_arith);
    lemma_unit_component(v.x, len);
    lemma_unit_component(v.y, len);
    lemma_unit_component(v.z, len);
    let u = v3_unit_spec(v);
    assert(u.x == fx_div_spec(v.x, len));
    // Sum the per-component lower bounds and cancel the positive factor len^2.
    let ll = len * len;
    assert((len * u.x) * (len * u.x) == ll * (u.x * u.x)) by (nonlinear_arith)
        requires
            ll == len * len,
    ;
    assert((len * u.y) * (len * u.y) == ll * (u.y * u.y)) by (nonlinear_arith)
        requires
            ll == len * len,
    ;
    assert((len * u.z) * (len * u.z) == ll * (u.z * u.z)) by (nonlinear_arith)
        requires
            ll == len * len,
    ;
    assert(ll * (u.x * u.x) + ll * (u.y * u.y) + ll * (u.z * u.z) == ll * dot_raw(u, u))
        by (nonlinear_arith)
        requires
            dot_raw(u, u) == u.x * u.x + u.y * u.y + u.z * u.z,
    ;
    assert(q * 4294967296 >= ll * 4294967296) by (nonlinear_arith)
        requires
            q >= ll,
    ;
    assert(ll * dot_raw(u, u) >= ll * 4294180864);
    assert(dot_raw(u, u) >= 4294180864) by (nonlinear_arith)
        requires
            ll >= 1,
            ll * dot_raw(u, u) >= ll * 4294180864,
    ;
}

} // verus!
