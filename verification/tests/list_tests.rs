use raytrace::hit::{HitList, Hittable};
use raytrace::interval::Interval;
use raytrace::ray::Ray;
use raytrace::shape::Sphere;
use raytrace::vec3::Vec3;

fn near_sphere() -> Sphere {
    Sphere { radius: 32768, centre: Vec3::new(0, 0, -65536) }
}

fn far_sphere() -> Sphere {
    Sphere { radius: 32768, centre: Vec3::new(0, 0, -131072) }
}

fn axis_ray() -> Ray {
    Ray::new(Vec3::new(0, 0, 0), Vec3::new(0, 0, -65536))
}

#[test]
fn empty_list_reports_nothing() {
    let world: HitList<Sphere> = HitList::new();
    assert!(world.hit(&axis_ray(), Interval::new(66, i64::MAX)).is_none());
}

#[test]
fn closest_member_wins_near_first() {
    let mut world: HitList<Sphere> = HitList::new();
    world.add(near_sphere());
    world.add(far_sphere());
    let rec = world.hit(&axis_ray(), Interval::new(66, i64::MAX)).expect("hit");
    assert_eq!(rec.t, 32768);
}

#[test]
fn closest_member_wins_far_first() {
    let mut world: HitList<Sphere> = HitList::new();
    world.add(far_sphere());
    world.add(near_sphere());
    let rec = world.hit(&axis_ray(), Interval::new(66, i64::MAX)).expect("hit");
    assert_eq!(rec.t, 32768);
}

#[test]
fn aggregate_is_no_farther_than_each_member() {
    let near = near_sphere();
    let far = far_sphere();
    let r = axis_ray();
    let iv = Interval::new(66, i64::MAX);
    let near_t = near.hit(&r, iv).expect("near hit").t;
    let far_t = far.hit(&r, iv).expect("far hit").t;
    let mut world: HitList<Sphere> = HitList::new();
    world.add(far_sphere());
    world.add(near_sphere());
    let agg_t = world.hit(&r, iv).expect("aggregate hit").t;
    assert!(agg_t <= near_t);
    assert!(agg_t <= far_t);
}

#[test]
fn clear_empties_the_list() {
    let mut world: HitList<Sphere> = HitList::new();
    world.add(near_sphere());
    world.clear();
    assert!(world.hit(&axis_ray(), Interval::new(66, i64::MAX)).is_none());
}

#[test]
fn empty_interval_yields_no_hit_from_the_aggregate() {
    let mut world: HitList<Sphere> = HitList::new();
    world.add(near_sphere());
    world.add(far_sphere());
    assert!(world.hit(&axis_ray(), Interval::egpty()).is_none());
}
