//! Rays: an origin point and a direction vector, with the point-at-parameter
//! operation `origin + t * direction`.

use vstd::prelude::*;
use crate::fixed::lemma_div_trunc_magnitude;
use crate::vec3::{
    dot_raw, in_bounds, v3_add, v3_scale, Vec3, V3, COORD_BOUND, DIR_BOUND, DIR_QMIN,
};

verus! {

/// Bound on the `t` parameters a ray is evaluated at.
pub const T_BOUND: i64 = 0x400_0000_0000;

/// The mathematical model of a ray.
pub ghost struct RayV {
    pub orig: V3,
    pub dir: V3,
}

#[derive(Clone, Copy)]
pub struct Ray {
    pub orig: Vec3,
    pub dir: Vec3,
}

impl View for Ray {
    type V = RayV;

    open spec fn view(&self) -> RayV {
        RayV { orig: self.orig@, dir: self.dir@ }
    }
}

/// A ray the intersection routines accept: origin within the scene's
/// coordinate bounds and a direction that is neither degenerate nor huge.
pub open spec fn ray_wf(r: RayV) -> bool {
    &&& in_bounds(r.orig, COORD_BOUND as int)
    &&& in_bounds(r.dir, DIR_BOUND as int)
    &&& dot_raw(r.dir, r.dir) >= DIR_QMIN
}

/// The point `origin + t * direction`, in the fixed-point encoding.
pub open spec fn at_spec(r: RayV, t: int) -> V3 {
    v3_add(r.orig, v3_scale(r.dir, t))
}

impl Ray {
    pub fn new(orig: Vec3, dir: Vec3) -> (r: Ray)
        ensures
            r@.orig == orig@,
            r@.dir == dir@,
    {
        Ray { orig, dir }
    }

    pub fn origin(&self) -> (r: Vec3)
        ensures
            r@ == self@.orig,
    {
        self.orig
    }

    pub fn direction(&self) -> (r: Vec3)
        ensures
            r@ == self@.dir,
    {
        self.dir
    }

    /// The point at parameter `t` along the ray.
    pub fn at(&self, t: i64) -> (r: Vec3)
        requires
            ray_wf(self@),
            -T_BOUND <= t <= T_BOUND,
        ensures
            r@ == at_spec(self@, t as int),
            in_bounds(r@, 0x10_0000_0000_0000),
    {
        proof {
            lemma_at_bounds(self@, t as int);
        }
        let scaled = self.dir.scale(t);
        self.orig.add(&scaled)
    }
}

/// Evaluating a well-formed ray at a bounded parameter stays within
/// comfortable coordinate bounds.
pub proof fn lemma_at_bounds(r: RayV, t: int)
    requires
        ray_wf(r),
        -T_BOUND <= t <= T_BOUND,
    ensures
        -0x8_0000_0000_0000_0000 <= r.dir.x * t <= 0x8_0000_0000_0000_0000,
        -0x8_0000_0000_0000_0000 <= r.dir.y * t <= 0x8_0000_0000_0000_0000,
        -0x8_0000_0000_0000_0000 <= r.dir.z * t <= 0x8_0000_0000_0000_0000,
        in_bounds(v3_scale(r.dir, t), 0x8_0000_0000_0000),
        in_bounds(at_spec(r, t), 0x10_0000_0000_0000),
{
    assert(-0x8_0000_0000_0000_0000 <= r.dir.x * t <= 0x8_0000_0000_0000_0000) by (nonlinear_arith)
        requires
            -0x200_0000 <= r.dir.x <= 0x200_0000,
            -0x400_0000_0000 <= t <= 0x400_0000_0000,
    ;
    assert(-0x8_0000_0000_0000_0000 <= r.dir.y * t <= 0x8_0000_0000_0000_0000) by (nonlinear_arith)
        requires
            -0x200_0000 <= r.dir.y <= 0x200_0000,
            -0x400_0000_0000 <= t <= 0x400_0000_0000,
    ;
    assert(-0x8_0000_0000_0000_0000 <= r.dir.z * t <= 0x8_0000_0000_0000_0000) by (nonlinear_arith)
        requires
            -0x200_0000 <= r.dir.z <= 0x200_0000,
            -0x400_0000_0000 <= t <= 0x400_0000_0000,
    ;
    lemma_div_trunc_magnitude(r.dir.x * t, 65536);
    lemma_div_trunc_magnitude(r.dir.y * t, 65536);
    lemma_div_trunc_magnitude(r.dir.z * t, 65536);
}

} // verus!
