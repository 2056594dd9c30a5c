//! Shape implementations. A sphere answers the intersection query by solving
//! the quadratic `|O + t*D - C|^2 = r^2` with the half-b substitution
//! `h = D . (C - O)`, preferring the smaller root.

use vstd::prelude::*;
use crate::fixed::{
    fx_div, fx_div_spec, fx_mul, fx_mul_spec, fx_one_int, fx_sqrt, fx_sqrt_spec,
    lemma_div_trunc_magnitude, lemma_div_trunc_ordered, lemma_sqrt_floor_bounds,
};
use crate::hit::{
    front_face_spec, oriented_normal, HitInfo, HitRecord, Hittable, HIT_N_BOUND, HIT_P_BOUND,
};
use crate::interval::{surrounds_spec, Interval};
use crate::ray::{at_spec, lemma_at_bounds, ray_wf, Ray, RayV, T_BOUND};
use crate::vec3::{
    dot_raw, dot_spec, in_bounds, lemma_dot_product_bound, lemma_dot_product_bound2, v3_sub,
    Vec3, V3, COORD_BOUND,
};

verus! {

/// Least supported sphere radius (1/256 of a world unit): a zero or negative
/// radius is degenerate geometry and rejected by `wf`.
pub const RADIUS_MIN: i64 = 256;

pub struct Sphere {
    pub radius: i64,
    pub centre: Vec3,
}

/// The vector from the ray origin to the sphere centre.
pub open spec fn sphere_oc(c: V3, rv: RayV) -> V3 {
    v3_sub(c, rv.orig)
}

/// The quadratic's leading coefficient `a = D . D`.
pub open spec fn sphere_a(rv: RayV) -> int {
    dot_spec(rv.dir, rv.dir)
}

/// The half-b coefficient `h = D . (C - O)`.
pub open spec fn sphere_h(c: V3, rv: RayV) -> int {
    dot_spec(rv.dir, sphere_oc(c, rv))
}

/// The constant coefficient `c = |C - O|^2 - r^2`.
pub open spec fn sphere_cc(c: V3, radius: int, rv: RayV) -> int {
    dot_spec(sphere_oc(c, rv), sphere_oc(c, rv)) - fx_mul_spec(radius, radius)
}

/// The (quarter) discriminant `h^2 - a*c`; negative means no real root.
pub open spec fn sphere_disc(c: V3, radius: int, rv: RayV) -> int {
    fx_mul_spec(sphere_h(c, rv), sphere_h(c, rv)) - fx_mul_spec(
        sphere_a(rv),
        sphere_cc(c, radius, rv),
    )
}

/// The square root of the discriminant.
pub open spec fn sphere_sq(c: V3, radius: int, rv: RayV) -> int {
    fx_sqrt_spec(sphere_disc(c, radius, rv))
}

/// The smaller root `(h - sqrt(disc)) / a`.
pub open spec fn sphere_root1(c: V3, radius: int, rv: RayV) -> int {
    fx_div_spec(sphere_h(c, rv) - sphere_sq(c, radius, rv), sphere_a(rv))
}

/// The larger root `(h + sqrt(disc)) / a`.
pub open spec fn sphere_root2(c: V3, radius: int, rv: RayV) -> int {
    fx_div_spec(sphere_h(c, rv) + sphere_sq(c, radius, rv), sphere_a(rv))
}

/// The reported hit distance: the smaller root if it lies strictly inside
/// the interval, else the larger root, else nothing.
pub open spec fn sphere_hit_t(c: V3, radius: int, rv: RayV, tmin: int, tmax: int) -> Option<
    int,
> {
    if sphere_disc(c, radius, rv) < 0 {
        None
    } else {
        let r1 = sphere_root1(c, radius, rv);
        let r2 = sphere_root2(c, radius, rv);
        if surrounds_spec(tmin, tmax, r1) {
            Some(r1)
        } else if surrounds_spec(tmin, tmax, r2) {
            Some(r2)
        } else {
            None
        }
    }
}

/// The true outward normal `(p - centre) / radius`.
pub open spec fn sphere_outward_normal(c: V3, radius: int, p: V3) -> V3 {
    V3 {
        x: fx_div_spec(p.x - c.x, radius),
        y: fx_div_spec(p.y - c.y, radius),
        z: fx_div_spec(p.z - c.z, radius),
    }
}

/// The full record reported for a hit at distance `t`.
pub open spec fn sphere_record(c: V3, radius: int, rv: RayV, t: int) -> HitInfo {
    let p = at_spec(rv, t);
    let outward = sphere_outward_normal(c, radius, p);
    HitInfo {
        t: t,
        p: p,
        normal: oriented_normal(rv.dir, outward),
        front_face: front_face_spec(rv.dir, outward),
    }
}

/// The mathematical answer of the sphere intersection query.
pub open spec fn sphere_hit_info_spec(
    c: V3,
    radius: int,
    rv: RayV,
    tmin: int,
    tmax: int,
) -> Option<HitInfo> {
    match sphere_hit_t(c, radius, rv, tmin, tmax) {
        Some(t) => Some(sphere_record(c, radius, rv, t)),
        None => None,
    }
}

/// Bounds on every quantity of the sphere quadratic, for a well-formed
/// sphere and ray: nothing in the computation leaves `i64`, the roots stay
/// within `T_BOUND`, and the smaller root really is the smaller.
pub proof fn lemma_sphere_quantities(c: V3, radius: int, rv: RayV)
    requires
        in_bounds(c, COORD_BOUND as int),
        RADIUS_MIN <= radius <= COORD_BOUND,
        ray_wf(rv),
    ensures
        in_bounds(sphere_oc(c, rv), 0x400_0000),
        16384 <= sphere_a(rv) <= 0x10_0000_0000,
        -0x20_0000_0000 <= sphere_h(c, rv) <= 0x20_0000_0000,
        0 <= dot_spec(sphere_oc(c, rv), sphere_oc(c, rv)) <= 0x40_0000_0000,
        0 <= fx_mul_spec(radius, radius) <= 0x4_0000_0000,
        -0x80_0000_0000 <= sphere_cc(c, radius, rv) <= 0x80_0000_0000,
        sphere_h(c, rv) * sphere_h(c, rv) <= 0x400_0000_0000_0000_0000,
        0 <= sphere_h(c, rv) * sphere_h(c, rv),
        -0x800_0000_0000_0000_0000 <= sphere_a(rv) * sphere_cc(c, radius, rv)
            <= 0x800_0000_0000_0000_0000,
        0 <= fx_mul_spec(sphere_h(c, rv), sphere_h(c, rv)) <= 0x400_0000_0000_0000,
        -0x800_0000_0000_0000 <= fx_mul_spec(sphere_a(rv), sphere_cc(c, radius, rv))
            <= 0x800_0000_0000_0000,
        -0x1000_0000_0000_0000 <= sphere_disc(c, radius, rv) <= 0x1000_0000_0000_0000,
        sphere_disc(c, radius, rv) >= 0 ==> 0 <= sphere_sq(c, radius, rv) <= 0x40_0000_0000,
        sphere_disc(c, radius, rv) >= 0 ==> -0x80_0000_0000 <= sphere_h(c, rv) - sphere_sq(
            c,
            radius,
            rv,
        ) <= 0x80_0000_0000,
        sphere_disc(c, radius, rv) >= 0 ==> -0x80_0000_0000 <= sphere_h(c, rv) + sphere_sq(
            c,
            radius,
            rv,
        ) <= 0x80_0000_0000,
        sphere_disc(c, radius, rv) >= 0 ==> -T_BOUND <= sphere_root1(c, radius, rv) <= T_BOUND,
        sphere_disc(c, radius, rv) >= 0 ==> -T_BOUND <= sphere_root2(c, radius, rv) <= T_BOUND,
        sphere_disc(c, radius, rv) >= 0 ==> sphere_root1(c, radius, rv) <= sphere_root2(
            c,
            radius,
            rv,
        ),
{
    let oc = sphere_oc(c, rv);
    let a = sphere_a(rv);
    let h = sphere_h(c, rv);
    let cc = sphere_cc(c, radius, rv);
    let disc = sphere_disc(c, radius, rv);
    lemma_dot_product_bound(rv.dir, rv.dir, 0x200_0000);
    lemma_dot_product_bound2(rv.dir, oc, 0x200_0000, 0x400_0000);
    lemma_dot_product_bound(oc, oc, 0x400_0000);
    lemma_div_trunc_magnitude(dot_raw(rv.dir, rv.dir), fx_one_int());
    lemma_div_trunc_magnitude(dot_raw(rv.dir, oc), fx_one_int());
    lemma_div_trunc_magnitude(dot_raw(oc, oc), fx_one_int());
    lemma_div_trunc_ordered(0x4000_0000, dot_raw(rv.dir, rv.dir), fx_one_int());
    assert(dot_raw(oc, oc) >= 0) by (nonlinear_arith);
    assert(radius * radius <= 0x4_0000_0000_0000) by (nonlinear_arith)
        requires
            256 <= radius <= 0x200_0000,
    ;
    assert(radius * radius >= 0) by (nonlinear_arith);
    lemma_div_trunc_magnitude(radius * radius, fx_one_int());
    assert(h * h <= 0x400_0000_0000_0000_0000 && h * h >= 0) by (nonlinear_arith)
        requires
            -0x20_0000_0000 <= h <= 0x20_0000_0000,
    ;
    assert(-0x800_0000_0000_0000_0000 <= a * cc <= 0x800_0000_0000_0000_0000)
        by (nonlinear_arith)
        requires
            0 <= a <= 0x10_0000_0000,
            -0x80_0000_0000 <= cc <= 0x80_0000_0000,
    ;
    lemma_div_trunc_magnitude(h * h, fx_one_int());
    lemma_div_trunc_magnitude(a * cc, fx_one_int());
    if disc >= 0 {
        let sq = sphere_sq(c, radius, rv);
        lemma_sqrt_floor_bounds(disc * fx_one_int());
        assert(sq <= 0x40_0000_0000) by (nonlinear_arith)
            requires
                sq >= 0,
                sq * sq <= disc * 65536,
                disc <= 0x1000_0000_0000_0000,
        ;
        lemma_root_bound(h - sq, a);
        lemma_root_bound(h + sq, a);
        lemma_div_trunc_ordered((h - sq) * 65536, (h + sq) * 65536, a);
    }
}

/// A quotient `x * FX_ONE / a` with `|x|` below `2^39` and `a` at least
/// `2^14` stays within `T_BOUND`, and the division cannot overflow.
proof fn lemma_root_bound(x: int, a: int)
    requires
        -0x80_0000_0000 <= x <= 0x80_0000_0000,
        16384 <= a,
    ensures
        -T_BOUND <= fx_div_spec(x, a) <= T_BOUND,
        x * 65536 <= a * 0x7fff_ffff_ffff_ffff,
        x * 65536 >= a * (-0x8000_0000_0000_0000),
{
    let q = fx_div_spec(x, a);
    lemma_div_trunc_magnitude(x * 65536, a);
    assert(-T_BOUND <= q <= T_BOUND) by (nonlinear_arith)
        requires
            T_BOUND == 0x400_0000_0000,
            16384 <= a,
            -0x80_0000_0000 * 65536 <= x * 65536 <= 0x80_0000_0000 * 65536,
            x * 65536 >= 0 ==> 0 <= a * q <= x * 65536,
            x * 65536 <= 0 ==> x * 65536 <= a * q <= 0,
    ;
    assert(x * 65536 <= a * 0x7fff_ffff_ffff_ffff && x * 65536 >= a * (
    -0x8000_0000_0000_0000)) by (nonlinear_arith)
        requires
            16384 <= a,
            -0x80_0000_0000 * 65536 <= x * 65536 <= 0x80_0000_0000 * 65536,
    ;
}

/// Bounds for the outward normal `(p - centre) / radius`, and the facts the
/// executable division needs.
pub proof fn lemma_outward_bounds(c: V3, radius: int, p: V3)
    requires
        in_bounds(c, COORD_BOUND as int),
        RADIUS_MIN <= radius <= COORD_BOUND,
        in_bounds(p, HIT_P_BOUND as int),
    ensures
        in_bounds(sphere_outward_normal(c, radius, p), HIT_N_BOUND as int),
        (p.x - c.x) * 65536 <= radius * 0x7fff_ffff_ffff_ffff,
        (p.x - c.x) * 65536 >= radius * (-0x8000_0000_0000_0000),
        (p.y - c.y) * 65536 <= radius * 0x7fff_ffff_ffff_ffff,
        (p.y - c.y) * 65536 >= radius * (-0x8000_0000_0000_0000),
        (p.z - c.z) * 65536 <= radius * 0x7fff_ffff_ffff_ffff,
        (p.z - c.z) * 65536 >= radius * (-0x8000_0000_0000_0000),
{
    lemma_outward_component(p.x - c.x, radius);
    lemma_outward_component(p.y - c.y, radius);
    lemma_outward_component(p.z - c.z, radius);
}

proof fn lemma_outward_component(x: int, radius: int)
    requires
        256 <= radius <= 0x200_0000,
        -0x20_0000_0000_0000 <= x <= 0x20_0000_0000_0000,
    ensures
        -HIT_N_BOUND <= fx_div_spec(x, radius) <= HIT_N_BOUND,
        x * 65536 <= radius * 0x7fff_ffff_ffff_ffff,
        x * 65536 >= radius * (-0x8000_0000_0000_0000),
{
    let q = fx_div_spec(x, radius);
    lemma_div_trunc_magnitude(x * 65536, radius);
    assert(-HIT_N_BOUND <= q <= HIT_N_BOUND) by (nonlinear_arith)
        requires
            HIT_N_BOUND == 0x2000_0000_0000_0000,
            256 <= radius,
            -0x20_0000_0000_0000 * 65536 <= x * 65536 <= 0x20_0000_0000_0000 * 65536,
            x * 65536 >= 0 ==> 0 <= radius * q <= x * 65536,
            x * 65536 <= 0 ==> x * 65536 <= radius * q <= 0,
    ;
    assert(x * 65536 <= radius * 0x7fff_ffff_ffff_ffff && x * 65536 >= radius * (
    -0x8000_0000_0000_0000)) by (nonlinear_arith)
        requires
            256 <= radius,
            -0x20_0000_0000_0000 * 65536 <= x * 65536 <= 0x20_0000_0000_0000 * 65536,
    ;
}

impl Hittable for Sphere {
    open spec fn hit_info(&self, r: RayV, tmin: int, tmax: int) -> Option<HitInfo> {
        sphere_hit_info_spec(self.centre@, self.radius as int, r, tmin, tmax)
    }

    open spec fn wf(&self) -> bool {
        &&& in_bounds(self.centre@, COORD_BOUND as int)
        &&& RADIUS_MIN <= self.radius <= COORD_BOUND
    }

    proof fn lemma_hit_props(&self, r: RayV, tmin: int, tmax: int) {
        let c = self.centre@;
        let radius = self.radius as int;
        lemma_sphere_quantities(c, radius, r);
        match sphere_hit_t(c, radius, r, tmin, tmax) {
            Some(t) => {
                lemma_at_bounds(r, t);
                lemma_outward_bounds(c, radius, at_spec(r, t));
            },
            None => {},
        }
    }

    proof fn lemma_hit_shrink(&self, r: RayV, tmin: int, tmax: int, tmax2: int) {
        let c = self.centre@;
        let radius = self.radius as int;
        lemma_sphere_quantities(c, radius, r);
    }

    /// Solves the quadratic and reports the nearest root strictly inside the
    /// caller's interval, with hit point and oriented outward normal.
    fn hit(&self, r: &Ray, ray_t: Interval) -> (res: Option<HitRecord>) {
        proof {
            lemma_sphere_quantities(self.centre@, self.radius as int, r@);
        }
        let d = r.direction();
        let oc = self.centre.sub(&r.origin());
        let a = d.magnitude_squared();
        let h = d.dot(&oc);
        let c_val = oc.magnitude_squared() - fx_mul(self.radius, self.radius);
        let discriminant = fx_mul(h, h) - fx_mul(a, c_val);
        if discriminant < 0 {
            return None;  // no real roots
        }
        let sqrtd = fx_sqrt(discriminant);
        // Prefer the nearest root that lies in the accepted range.
        let mut root = fx_div(h - sqrtd, a);
        if !ray_t.surrounds(root) {
            root = fx_div(h + sqrtd, a);
            if !ray_t.surrounds(root) {
                return None;  // no valid hit
            }
        }
        let p = r.at(root);
        proof {
            lemma_outward_bounds(self.centre@, self.radius as int, p@);
        }
        let po = p.sub(&self.centre);
        let outward_norm = Vec3::new(
            fx_div(po.x, self.radius),
            fx_div(po.y, self.radius),
            fx_div(po.z, self.radius),
        );
        let mut hit_rec = HitRecord { t: root, p, normal: outward_norm, front_face: false };
        hit_rec.set_face_normal(r, outward_norm);
        Some(hit_rec)
    }
}

/// A point built from an exact root of the (unscaled) sphere quadratic lies
/// exactly on the sphere. With `a = D.D`, `h = D.(C-O)`, `q = |C-O|^2` and a
/// root `s*s == h*h - a*(q - rr)` of the discriminant, the point
/// `P = a*O + (h - s)*D` (the ray evaluated at `t = (h-s)/a`, scaled by `a`
/// to stay in the integers) satisfies `|P - a*C|^2 == rr * a^2`: the
/// intersection distance puts the hit point at distance exactly `r` from the
/// centre. The same holds for the larger root `h + s`.
pub proof fn lemma_root_on_sphere(o: V3, dvec: V3, c: V3, rr: int, s: int, tn: int)
    requires
        s * s == sphere_quad_disc(o, dvec, c, rr),
        tn == dot_raw(dvec, v3_sub(c, o)) - s || tn == dot_raw(dvec, v3_sub(c, o)) + s,
    ensures
        dot_raw(
            on_ray_scaled(o, dvec, c, tn),
            on_ray_scaled(o, dvec, c, tn),
        ) == rr * (dot_raw(dvec, dvec) * dot_raw(dvec, dvec)),
{
    let oc = v3_sub(c, o);
    let a = dot_raw(dvec, dvec);
    let h = dot_raw(dvec, oc);
    let q = dot_raw(oc, oc);
    let pp = on_ray_scaled(o, dvec, c, tn);
    // Expand each squared component of P - a*C.
    lemma_square_expand(pp.x, tn, dvec.x, a, oc.x);
    lemma_square_expand(pp.y, tn, dvec.y, a, oc.y);
    lemma_square_expand(pp.z, tn, dvec.z, a, oc.z);
    // Collect the sums back into the three dot products.
    assert(tn * tn * (dvec.x * dvec.x) + tn * tn * (dvec.y * dvec.y) + tn * tn * (dvec.z
        * dvec.z) == tn * tn * a) by (nonlinear_arith)
        requires
            a == dvec.x * dvec.x + dvec.y * dvec.y + dvec.z * dvec.z,
    ;
    assert(2 * (tn * a * (dvec.x * oc.x)) + 2 * (tn * a * (dvec.y * oc.y)) + 2 * (tn * a
        * (dvec.z * oc.z)) == 2 * (tn * a * h)) by (nonlinear_arith)
        requires
            h == dvec.x * oc.x + dvec.y * oc.y + dvec.z * oc.z,
    ;
    assert(a * a * (oc.x * oc.x) + a * a * (oc.y * oc.y) + a * a * (oc.z * oc.z) == a * a * q)
        by (nonlinear_arith)
        requires
            q == oc.x * oc.x + oc.y * oc.y + oc.z * oc.z,
    ;
    assert(dot_raw(pp, pp) == tn * tn * a - 2 * (tn * a * h) + a * a * q);
    // The root property turns the quadratic's value into rr * a^2.
    assert(tn * tn - 2 * tn * h == s * s - h * h) by (nonlinear_arith)
        requires
            tn == h - s || tn == h + s,
    ;
    assert(tn * tn * a - 2 * (tn * a * h) + a * a * q == a * (tn * tn - 2 * tn * h) + a * (a
        * q)) by (nonlinear_arith);
    assert(a * (s * s - h * h) + a * (a * q) == rr * (a * a)) by (nonlinear_arith)
        requires
            s * s == h * h - a * (q - rr),
    ;
}


/// The ring identity `(t*d - a*e)^2 == t^2 d^2 - 2 t a d e + a^2 e^2`.
proof fn lemma_square_expand(p: int, t: int, d: int, a: int, e: int)
    requires
        p == t * d - a * e,
    ensures
        p * p == t * t * (d * d) - 2 * (t * a * (d * e)) + a * a * (e * e),
{
    let u = t * d;
    let v = a * e;
    assert(p * p == u * u - 2 * (u * v) + v * v) by (nonlinear_arith)
        requires
            p == u - v,
    ;
    assert(u * u == t * t * (d * d)) by (nonlinear_arith)
        requires
            u == t * d,
    ;
    assert(u * v == t * a * (d * e)) by (nonlinear_arith)
        requires
            u == t * d,
            v == a * e,
    ;
    assert(2 * (u * v) == 2 * (t * a * (d * e)));
    assert(v * v == a * a * (e * e)) by (nonlinear_arith)
        requires
            v == a * e,
    ;
}

/// The exact (unscaled) discriminant of the sphere quadratic.
pub open spec fn sphere_quad_disc(o: V3, dvec: V3, c: V3, rr: int) -> int {
    let oc = v3_sub(c, o);
    dot_raw(dvec, oc) * dot_raw(dvec, oc) - dot_raw(dvec, dvec) * (dot_raw(oc, oc) - rr)
}

/// `a*(O + (tn/a)*D) - a*C`: the ray point at the exact root, scaled by `a`,
/// relative to the sphere centre.
pub open spec fn on_ray_scaled(o: V3, dvec: V3, c: V3, tn: int) -> V3 {
    let oc = v3_sub(c, o);
    let a = dot_raw(dvec, dvec);
    V3 { x: tn * dvec.x - a * oc.x, y: tn * dvec.y - a * oc.y, z: tn * dvec.z - a * oc.z }
}

} // verus!
