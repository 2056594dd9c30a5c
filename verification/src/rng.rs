//! Uniform random sampling: the source of per-pixel jitter and diffuse
//! scatter directions. The machine's random generator is trusted only to
//! return some value; every bound on what the samplers hand out is proved.

use vstd::prelude::*;
use crate::fixed::{fx_mul, lemma_div_trunc_magnitude, FX_ONE};
use crate::fixed::{fx_div_spec, lemma_sqrt_floor_unique};
use crate::vec3::{dot_raw, in_bounds, v3_neg, v3_unit_spec, Vec3, V3, UNIT_BOUND};

verus! {

/// Relies on `rand::random` with the standard uniform distribution on `u64`:
/// it returns some value, and nothing further is assumed of it.
#[verifier::external_body]
fn random_u64() -> u64 {
    rand::random::<u64>()
}

/// A sample from `[0, 1)`: the fixed-point unit interval.
pub fn rand_fx() -> (r: i64)
    ensures
        0 <= r < FX_ONE,
{
    let raw = random_u64();
    (raw % 65536) as i64
}

/// A sample from `[min, max]`, below `max` whenever `min < max`.
pub fn rand_fx_range(min: i64, max: i64) -> (r: i64)
    requires
        min <= max,
        -0x40_0000_0000 <= min,
        max <= 0x40_0000_0000,
    ensures
        min <= r <= max,
        min < max ==> r < max,
{
    let u = rand_fx();
    let span = max - min;
    proof {
        assert(span * u <= span * 65535 && span * u >= 0) by (nonlinear_arith)
            requires
                0 <= span,
                0 <= u <= 65535,
        ;
        lemma_div_trunc_magnitude(span * u, 65536);
    }
    let off = fx_mul(span, u);
    min + off
}

/// A random vector with each component in `[0, 1)`.
pub fn rand_vec3() -> (r: Vec3)
    ensures
        0 <= r@.x < FX_ONE,
        0 <= r@.y < FX_ONE,
        0 <= r@.z < FX_ONE,
{
    Vec3::new(rand_fx(), rand_fx(), rand_fx())
}

/// A random vector with each component in `[min, max]`.
pub fn rand_vec3_range(min: i64, max: i64) -> (r: Vec3)
    requires
        min <= max,
        -0x40_0000_0000 <= min,
        max <= 0x40_0000_0000,
    ensures
        min <= r@.x <= max,
        min <= r@.y <= max,
        min <= r@.z <= max,
        min < max ==> r@.x < max && r@.y < max && r@.z < max,
{
    Vec3::new(rand_fx_range(min, max), rand_fx_range(min, max), rand_fx_range(min, max))
}

/// An admissible rejection-sampling draw: inside the cube, within the unit
/// ball, and not degenerately short.
pub open spec fn unit_draw_ok(p: V3) -> bool {
    &&& in_bounds(p, 65536)
    &&& 1073741824 <= dot_raw(p, p) <= 4294967296
}

/// The unit vector on the axis of the fixed-point encoding is its own
/// normalization, and an admissible draw.
proof fn lemma_axis_unit()
    ensures
        unit_draw_ok(V3 { x: 65536, y: 0, z: 0 }),
        v3_unit_spec(V3 { x: 65536, y: 0, z: 0 }) == (V3 { x: 65536, y: 0, z: 0 }),
{
    let p = V3 { x: 65536, y: 0, z: 0 };
    assert(dot_raw(p, p) == 65536 * 65536);
    lemma_sqrt_floor_unique(65536int * 65536, 65536);
    assert(crate::vec3::norm_len_spec(p) == 65536);
    assert(fx_div_spec(65536, 65536) == 65536);
    assert(fx_div_spec(0, 65536) == 0);
}

/// A vector drawn uniformly from the unit sphere: sample the cube, reject
/// what falls outside the unit ball or degenerately close to zero (resample
/// rather than divide by near-zero), and normalize the survivor. The number
/// of resampling rounds is bounded so that the draw provably terminates;
/// exhausting them (vanishingly unlikely) falls back to an axis direction.
pub fn rand_unit_vec3() -> (r: Vec3)
    ensures
        in_bounds(r@, UNIT_BOUND as int),
        dot_raw(r@, r@) >= 65536 * 65536 - 12 * 65536,
        exists|p: V3| unit_draw_ok(p) && r@ == v3_unit_spec(p),
{
    let mut k: u16 = 0;
    while k < 64
        invariant
            k <= 64,
        decreases 64 - k,
    {
        let p = rand_vec3_range(-FX_ONE, FX_ONE);
        let len_sq = p.dot_wide(&p);
        if 1073741824 <= len_sq && len_sq <= 4294967296 {
            let u = p.unit();
            proof {
                assert(unit_draw_ok(p@) && u@ == v3_unit_spec(p@));
            }
            return u;
        }
        k = k + 1;
    }
    let fallback = Vec3::new(FX_ONE, 0, 0);
    proof {
        lemma_axis_unit();
        let ghost p = V3 { x: 65536, y: 0, z: 0 };
        assert(unit_draw_ok(p) && fallback@ == v3_unit_spec(p));
        assert(dot_raw(fallback@, fallback@) == 65536 * 65536);
    }
    fallback
}

/// A unit vector turned against `n` when it does not already agree with it.
pub open spec fn hemisphere_of(u: V3, n: V3) -> V3 {
    if dot_raw(u, n) > 0 {
        u
    } else {
        v3_neg(u)
    }
}

/// A unit-sphere sample turned to lie on the hemisphere around `normal`:
/// the sample itself when it agrees with the normal, its negation otherwise.
pub fn rand_on_hemisphere(normal: &Vec3) -> (r: Vec3)
    requires
        in_bounds(normal@, 0x4000_0000_0000_0000),
    ensures
        in_bounds(r@, UNIT_BOUND as int),
        dot_raw(r@, r@) >= 65536 * 65536 - 12 * 65536,
        dot_raw(r@, normal@) >= 0,
        exists|p: V3| unit_draw_ok(p) && r@ == hemisphere_of(v3_unit_spec(p), normal@),
{
    let on_unit_sphere = rand_unit_vec3();
    proof {
        let ghost p = choose|p: V3| unit_draw_ok(p) && on_unit_sphere@ == v3_unit_spec(p);
        assert(unit_draw_ok(p) && on_unit_sphere@ == v3_unit_spec(p));
    }
    let d = on_unit_sphere.dot_wide(normal);
    if d > 0 {
        proof {
            let ghost p = choose|p: V3| unit_draw_ok(p) && on_unit_sphere@ == v3_unit_spec(p);
            assert(unit_draw_ok(p) && on_unit_sphere@ == hemisphere_of(v3_unit_spec(p), normal@));
        }
        on_unit_sphere
    } else {
        let flipped = on_unit_sphere.neg();
        proof {
            lemma_neg_dot(on_unit_sphere@, normal@);
            let ghost p = choose|p: V3| unit_draw_ok(p) && on_unit_sphere@ == v3_unit_spec(p);
            assert(unit_draw_ok(p) && flipped@ == hemisphere_of(v3_unit_spec(p), normal@));
        }
        flipped
    }
}

/// Negating one argument negates a dot product; negating both sides of a
/// squared length preserves it.
proof fn lemma_neg_dot(a: V3, b: V3)
    ensures
        dot_raw(v3_neg(a), b) == -dot_raw(a, b),
        dot_raw(v3_neg(a), v3_neg(a)) == dot_raw(a, a),
{
    assert((-a.x) * b.x == -(a.x * b.x)) by (nonlinear_arith);
    assert((-a.y) * b.y == -(a.y * b.y)) by (nonlinear_arith);
    assert((-a.z) * b.z == -(a.z * b.z)) by (nonlinear_arith);
    assert((-a.x) * (-a.x) == a.x * a.x) by (nonlinear_arith);
    assert((-a.y) * (-a.y) == a.y * a.y) by (nonlinear_arith);
    assert((-a.z) * (-a.z) == a.z * a.z) by (nonlinear_arith);
}

} // verus!
