use raytrace::fixed::{deg_to_rad, fx_div, fx_mul, fx_sqrt, FX_ONE, PI_FX};
use raytrace::ray::Ray;
use raytrace::vec3::Vec3;

#[test]
fn vector_arithmetic_is_componentwise() {
    let a = Vec3::new(65536, -131072, 196608);
    let b = Vec3::new(32768, 32768, -65536);
    let s = a.add(&b);
    assert_eq!((s.x, s.y, s.z), (98304, -98304, 131072));
    let d = a.sub(&b);
    assert_eq!((d.x, d.y, d.z), (32768, -163840, 262144));
    let n = a.neg();
    assert_eq!((n.x, n.y, n.z), (-65536, 131072, -196608));
}

#[test]
fn scaling_is_fixed_point() {
    let a = Vec3::new(65536, -98304, 0);
    let s = a.scale(32768);
    assert_eq!((s.x, s.y, s.z), (32768, -49152, 0));
}

#[test]
fn dot_product_rescales() {
    let a = Vec3::new(65536, 131072, 0);
    let b = Vec3::new(65536, 65536, 65536);
    // 1*1 + 2*1 + 0*1 == 3 in world units.
    assert_eq!(a.dot(&b), 3 * 65536);
    assert_eq!(a.magnitude_squared(), 5 * 65536);
}

#[test]
fn unit_of_axis_vector_is_exact() {
    let v = Vec3::new(0, 0, -65536);
    let u = v.unit();
    assert_eq!((u.x, u.y, u.z), (0, 0, -65536));
    let w = Vec3::new(0, 3 * 65536, 0);
    let uw = w.unit();
    assert_eq!((uw.x, uw.y, uw.z), (0, 65536, 0));
}

#[test]
fn unit_length_is_close_to_one() {
    let v = Vec3::new(3 * 65536, -4 * 65536, 12 * 65536);
    let u = v.unit();
    let q = (u.x as i128) * (u.x as i128) + (u.y as i128) * (u.y as i128) + (u.z as i128)
        * (u.z as i128);
    let one = 65536i128 * 65536;
    assert!(q >= one - 12 * 65536);
    assert!(q <= one + 2 * 65536);
}

#[test]
fn ray_evaluates_at_parameter() {
    let r = Ray::new(Vec3::new(65536, 0, 0), Vec3::new(0, 0, -65536));
    let o = r.origin();
    let d = r.direction();
    assert_eq!((o.x, o.y, o.z), (65536, 0, 0));
    assert_eq!((d.x, d.y, d.z), (0, 0, -65536));
    let p = r.at(131072);
    assert_eq!((p.x, p.y, p.z), (65536, 0, -131072));
}

#[test]
fn fixed_point_operations_truncate_toward_zero() {
    assert_eq!(fx_mul(98304, 32768), 49152);
    assert_eq!(fx_mul(-98304, 32768), -49152);
    assert_eq!(fx_div(65536, 3 * 65536), 21845);
    assert_eq!(fx_div(-65536, 3 * 65536), -21845);
    assert_eq!(fx_sqrt(4 * 65536), 2 * 65536);
    assert_eq!(fx_sqrt(2 * 65536), 92681);
    assert_eq!(fx_sqrt(0), 0);
}

#[test]
fn straight_angle_is_pi() {
    assert_eq!(deg_to_rad(180 * FX_ONE), PI_FX);
    assert_eq!(deg_to_rad(0), 0);
}
