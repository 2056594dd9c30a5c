use raytrace::camera::Camera;
use raytrace::colour::ppm_header;
use raytrace::hit::{HitList, Hittable};
use raytrace::interval::Interval;
use raytrace::ray::Ray;
use raytrace::shape::Sphere;
use raytrace::vec3::Vec3;

/// 16:9 in the fixed-point encoding, rounded down.
const WIDE: i64 = 116508;

fn single_sphere_scene() -> HitList<Sphere> {
    let mut world: HitList<Sphere> = HitList::new();
    world.add(Sphere { radius: 32768, centre: Vec3::new(0, 0, -65536) });
    world
}

#[test]
fn camera_derives_the_documented_geometry() {
    let cam = Camera::new(WIDE, 400, 10, 50);
    assert_eq!(cam.img_width, 400);
    assert_eq!(cam.img_height, 225);
    assert_eq!(cam.samples_per_pixel, 10);
    assert_eq!(cam.max_depth, 50);
    assert_eq!((cam.center.x, cam.center.y, cam.center.z), (0, 0, 0));
    assert_eq!((cam.pixel_du.x, cam.pixel_du.y, cam.pixel_du.z), (582, 0, 0));
    assert_eq!((cam.pixel_dv.x, cam.pixel_dv.y, cam.pixel_dv.z), (0, -582, 0));
    assert_eq!(
        (cam.pixel_00_loc.x, cam.pixel_00_loc.y, cam.pixel_00_loc.z),
        (-116217, 65245, -65536),
    );
}

#[test]
fn height_clamps_to_one() {
    // A very wide aspect ratio would drive the height to zero.
    let cam = Camera::new(16 * 65536, 4, 1, 1);
    assert_eq!(cam.img_height, 1);
}

#[test]
fn wide_scene_header_is_exact() {
    let cam = Camera::new(WIDE, 400, 1, 50);
    let hdr = ppm_header(cam.img_width, cam.img_height);
    assert_eq!(hdr, b"P3\n400 225\n255\n".to_vec());
}

#[test]
fn corner_pixel_is_pale_sky() {
    let world = single_sphere_scene();
    let cam = Camera::new(WIDE, 400, 1, 50);
    // Pixel (0, 0) sees only background: pale blue, whatever the jitter.
    let px = cam.render_pixel(0, 0, &world);
    assert!((px.r as i32 - 204).abs() <= 2, "r = {}", px.r);
    assert!((px.g as i32 - 226).abs() <= 2, "g = {}", px.g);
    assert_eq!(px.b, 255);
}

#[test]
fn centre_pixel_hits_the_sphere() {
    let world = single_sphere_scene();
    let r = Ray::new(Vec3::new(0, 0, 0), Vec3::new(0, 0, -65536));
    let rec = world.hit(&r, Interval::new(66, i64::MAX)).expect("centre hit");
    assert_eq!(rec.t, 32768);
}

#[test]
fn zero_bounce_budget_renders_exact_black() {
    let world = single_sphere_scene();
    let cam = Camera::new(WIDE, 400, 1, 0);
    let px = cam.render_pixel(200, 112, &world);
    assert_eq!((px.r, px.g, px.b), (0, 0, 0));
}

#[test]
fn zero_bounce_budget_blackens_the_whole_image() {
    let world = single_sphere_scene();
    let cam = Camera::new(65536, 8, 2, 0);
    let img = cam.render(&world);
    assert_eq!(img.len(), 64);
    for px in &img {
        assert_eq!((px.r, px.g, px.b), (0, 0, 0));
    }
}

#[test]
fn render_emits_one_triple_per_pixel() {
    let world = single_sphere_scene();
    let cam = Camera::new(65536, 8, 1, 3);
    let img = cam.render(&world);
    assert_eq!(img.len(), 64);
}

#[test]
fn sample_count_leaves_the_expected_value_alone() {
    // More samples tighten the estimate without moving a pure-sky pixel.
    let world = single_sphere_scene();
    let one = Camera::new(WIDE, 400, 1, 50).render_pixel(0, 0, &world);
    let many = Camera::new(WIDE, 400, 512, 50).render_pixel(0, 0, &world);
    assert!((one.r as i32 - many.r as i32).abs() <= 2);
    assert!((one.g as i32 - many.g as i32).abs() <= 2);
    assert!((one.b as i32 - many.b as i32).abs() <= 2);
}
