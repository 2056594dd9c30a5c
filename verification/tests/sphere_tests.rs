use raytrace::hit::{HitRecord, Hittable};
use raytrace::interval::Interval;
use raytrace::ray::Ray;
use raytrace::shape::Sphere;
use raytrace::vec3::Vec3;

fn unit_sphere_ahead() -> Sphere {
    // Radius 0.5, centred one unit in front of the origin.
    Sphere { radius: 32768, centre: Vec3::new(0, 0, -65536) }
}

#[test]
fn axis_ray_hits_at_half_unit() {
    let s = unit_sphere_ahead();
    let r = Ray::new(Vec3::new(0, 0, 0), Vec3::new(0, 0, -65536));
    let rec = s.hit(&r, Interval::new(66, i64::MAX)).expect("front hit");
    assert_eq!(rec.t, 32768);
    assert_eq!((rec.p.x, rec.p.y, rec.p.z), (0, 0, -32768));
    assert_eq!((rec.normal.x, rec.normal.y, rec.normal.z), (0, 0, 65536));
    assert!(rec.front_face);
}

#[test]
fn hit_point_lies_on_the_sphere() {
    let s = unit_sphere_ahead();
    let r = Ray::new(Vec3::new(6000, -4500, 0), Vec3::new(-1200, 900, -65536));
    if let Some(rec) = s.hit(&r, Interval::new(66, i64::MAX)) {
        // |p - centre|^2 == radius^2, within the fixed-point quantum.
        let dx = (rec.p.x - s.centre.x) as i128;
        let dy = (rec.p.y - s.centre.y) as i128;
        let dz = (rec.p.z - s.centre.z) as i128;
        let q = dx * dx + dy * dy + dz * dz;
        let rr = (s.radius as i128) * (s.radius as i128);
        // The root and hit point are truncated at most a few quanta, each
        // worth about 2 * radius in the squared distance.
        let tol = 16 * 65536;
        assert!(q >= rr - tol && q <= rr + tol, "q={} rr={}", q, rr);
    } else {
        panic!("expected a hit through the sphere's middle");
    }
}

#[test]
fn ray_pointing_away_misses() {
    let s = unit_sphere_ahead();
    let r = Ray::new(Vec3::new(0, 0, 0), Vec3::new(0, 0, 65536));
    assert!(s.hit(&r, Interval::new(66, i64::MAX)).is_none());
}

#[test]
fn interval_bounds_are_strict() {
    let s = unit_sphere_ahead();
    let r = Ray::new(Vec3::new(0, 0, 0), Vec3::new(0, 0, -65536));
    // The true hit is exactly at t == 32768: an interval ending there
    // must reject it, and the far root misses too.
    assert!(s.hit(&r, Interval::new(66, 32768)).is_none());
}

#[test]
fn empty_interval_never_hits() {
    let s = unit_sphere_ahead();
    let r = Ray::new(Vec3::new(0, 0, 0), Vec3::new(0, 0, -65536));
    assert!(s.hit(&r, Interval::egpty()).is_none());
}

#[test]
fn inside_hit_faces_backward() {
    let s = unit_sphere_ahead();
    // Start at the centre: the hit is on the inside of the surface.
    let r = Ray::new(Vec3::new(0, 0, -65536), Vec3::new(0, 0, -65536));
    let rec = s.hit(&r, Interval::new(66, i64::MAX)).expect("inside hit");
    assert_eq!(rec.t, 32768);
    assert!(!rec.front_face);
    assert_eq!((rec.normal.x, rec.normal.y, rec.normal.z), (0, 0, 65536));
}

#[test]
fn face_normal_orients_against_the_ray() {
    let r = Ray::new(Vec3::new(0, 0, 0), Vec3::new(0, 0, -65536));
    let mut rec = HitRecord::default();
    rec.set_face_normal(&r, Vec3::new(0, 0, 65536));
    assert!(rec.front_face);
    assert_eq!((rec.normal.x, rec.normal.y, rec.normal.z), (0, 0, 65536));
    rec.set_face_normal(&r, Vec3::new(0, 0, -65536));
    assert!(!rec.front_face);
    assert_eq!((rec.normal.x, rec.normal.y, rec.normal.z), (0, 0, 65536));
}

#[test]
fn default_record_is_blank() {
    let rec = HitRecord::default();
    assert_eq!(rec.t, 0);
    assert_eq!((rec.p.x, rec.p.y, rec.p.z), (0, 0, 0));
    assert!(!rec.front_face);
}
