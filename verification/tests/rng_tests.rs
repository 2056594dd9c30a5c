use raytrace::rng::{rand_fx, rand_fx_range, rand_on_hemisphere, rand_unit_vec3, rand_vec3,
    rand_vec3_range};
use raytrace::vec3::Vec3;

fn raw_len_sq(v: &Vec3) -> i128 {
    (v.x as i128) * (v.x as i128) + (v.y as i128) * (v.y as i128) + (v.z as i128) * (v.z as i128)
}

#[test]
fn unit_samples_stay_in_the_unit_interval() {
    for _ in 0..200 {
        let u = rand_fx();
        assert!(0 <= u && u < 65536);
    }
}

#[test]
fn range_samples_stay_inside() {
    for _ in 0..200 {
        let u = rand_fx_range(-65536, 65536);
        assert!(-65536 <= u && u < 65536);
    }
    assert_eq!(rand_fx_range(42, 42), 42);
}

#[test]
fn random_vectors_stay_inside() {
    for _ in 0..50 {
        let v = rand_vec3();
        assert!(0 <= v.x && v.x < 65536);
        assert!(0 <= v.y && v.y < 65536);
        assert!(0 <= v.z && v.z < 65536);
        let w = rand_vec3_range(-131072, 131072);
        assert!(-131072 <= w.x && w.x < 131072);
        assert!(-131072 <= w.y && w.y < 131072);
        assert!(-131072 <= w.z && w.z < 131072);
    }
}

#[test]
fn unit_sphere_samples_have_unit_length() {
    let one = 65536i128 * 65536;
    for _ in 0..50 {
        let v = rand_unit_vec3();
        assert!(v.x.abs() <= 131072 && v.y.abs() <= 131072 && v.z.abs() <= 131072);
        let q = raw_len_sq(&v);
        assert!(q >= one - 12 * 65536, "too short: {}", q);
        assert!(q <= one + 16 * 65536, "too long: {}", q);
    }
}

#[test]
fn hemisphere_samples_agree_with_the_normal() {
    let n = Vec3::new(0, 65536, 0);
    for _ in 0..50 {
        let v = rand_on_hemisphere(&n);
        let d = (v.x as i128) * (n.x as i128) + (v.y as i128) * (n.y as i128) + (v.z as i128)
            * (n.z as i128);
        assert!(d >= 0);
    }
}
