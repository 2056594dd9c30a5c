//! The camera: viewport geometry derived once from aspect ratio and width,
//! per-pixel jittered ray generation, the recursive diffuse shading, and the
//! scanline render loop.

use vstd::prelude::*;
use crate::colour::{quantize_colour, Rgb};
use crate::fixed::{
    div_trunc, div_trunc_i128, fx_mul, fx_mul_spec, fx_one_int, lemma_div_trunc_magnitude,
    lemma_div_trunc_sign, FX_ONE,
};
use crate::hit::Hittable;
use crate::interval::{clamp_spec, Interval};
use crate::ray::{ray_wf, Ray, RayV};
use crate::rng::{rand_fx, rand_unit_vec3};
use crate::colour::quantize_channel_spec;
use crate::vec3::{
    dot_raw, in_bounds, v3_add, v3_scale, v3_sub, v3_unit_spec, v3_zero, Vec3, V3, DIR_BOUND,
    DIR_QMIN,
};

verus! {

/// The shadow-acne guard: the least accepted hit distance (about 0.001).
pub const HIT_EPS: i64 = 66;

/// The fixed diffuse reflectance: 0.9 of the bounced light is kept.
pub const ATTENUATION: i64 = 58982;

/// The sky gradient's horizon colour: a pale blue.
pub const SKY_R: i64 = 32768;

pub const SKY_G: i64 = 45875;

pub const SKY_B: i64 = 65536;

/// Derived image height: `width / aspect_ratio`, at least 1.
pub open spec fn spec_img_height(w: int, ar: int) -> int {
    let ih = div_trunc(w * 65536, ar);
    if ih < 1 {
        1
    } else {
        ih
    }
}

/// The viewport width: height 2 scaled by the pixel aspect ratio.
pub open spec fn spec_viewport_width(w: int, ih: int) -> int {
    2 * div_trunc(w * 65536, ih)
}

/// The per-pixel horizontal step.
pub open spec fn spec_du(w: int, ih: int) -> int {
    div_trunc(spec_viewport_width(w, ih), w)
}

/// The per-pixel vertical step (downward: row 0 is the top).
pub open spec fn spec_dv(ih: int) -> int {
    -div_trunc(131072, ih)
}

/// The centre of pixel (0, 0): the viewport's upper-left corner, half a
/// pixel step inward, one focal length in front of the camera.
pub open spec fn spec_pixel00(w: int, ih: int) -> V3 {
    V3 {
        x: -div_trunc(spec_viewport_width(w, ih), 2) + div_trunc(spec_du(w, ih), 2),
        y: 65536 + div_trunc(spec_dv(ih), 2),
        z: -65536,
    }
}

/// One channel of the background gradient: white blended toward `tint` by
/// the (clamped) vertical blend factor `a`.
pub open spec fn sky_channel(a: int, tint: int) -> int {
    65536 - a + fx_mul_spec(a, tint)
}

/// The sky colour of a ray: blend white and pale blue by the normalized
/// direction's upward component.
pub open spec fn sky_spec(dir: V3) -> V3 {
    let u = v3_unit_spec(dir);
    let a = clamp_spec(0, 65536, div_trunc(u.y + 65536, 2));
    V3 {
        x: sky_channel(a, SKY_R as int),
        y: sky_channel(a, SKY_G as int),
        z: sky_channel(a, SKY_B as int),
    }
}

/// A colour with every channel inside `[0, 1]`.
pub open spec fn colour_wf(c: V3) -> bool {
    &&& 0 <= c.x <= 65536
    &&& 0 <= c.y <= 65536
    &&& 0 <= c.z <= 65536
}

/// Everything `ray_colour` promises of a colour it hands back for ray `r`
/// with the given remaining bounce budget: channels in `[0, 1]`; exactly
/// black once the budget is spent; exactly the sky gradient on a miss; and
/// dimmed to at most the reflectance on a hit.
pub open spec fn shade_outcome<T: Hittable>(world: T, depth: int, r: RayV, c: V3) -> bool {
    &&& colour_wf(c)
    &&& depth <= 0 ==> c == v3_zero()
    &&& (depth > 0 && world.hit_info(r, HIT_EPS as int, i64::MAX as int) is None) ==> c
        == sky_spec(r.dir)
    &&& (depth > 0 && world.hit_info(r, HIT_EPS as int, i64::MAX as int) is Some) ==> c.x
        <= ATTENUATION && c.y <= ATTENUATION && c.z <= ATTENUATION
}

/// Componentwise sum of a sequence of sample colours.
pub open spec fn colour_sum(cols: Seq<V3>) -> V3
    decreases cols.len(),
{
    if cols.len() == 0 {
        v3_zero()
    } else {
        v3_add(colour_sum(cols.drop_last()), cols.last())
    }
}

pub struct Camera {
    /// Ratio of image width to image height, in the fixed-point encoding.
    pub aspect_ratio: i64,
    /// Rendered image width in pixels.
    pub img_width: i64,
    /// Count of random samples per pixel.
    pub samples_per_pixel: i64,
    /// Maximum number of ray bounces into the scene.
    pub max_depth: i64,
    /// Rendered image height in pixels.
    pub img_height: i64,
    /// Location of the centre of the camera.
    pub center: Vec3,
    /// Location of the centre of pixel (0, 0).
    pub pixel_00_loc: Vec3,
    /// Offset of the pixel to the right.
    pub pixel_du: Vec3,
    /// Offset of the pixel below.
    pub pixel_dv: Vec3,
}

impl Camera {
    /// The jittered sample direction for pixel (i, j) with offsets (ox, oy):
    /// `pixel00 + (i + ox)*du + (j + oy)*dv - center` (spec 4.5's target).
    pub open spec fn ray_dir_spec(&self, i: int, j: int, ox: int, oy: int) -> V3 {
        v3_sub(
            v3_add(
                v3_add(self.pixel_00_loc@, v3_scale(self.pixel_du@, i * 65536 + ox)),
                v3_scale(self.pixel_dv@, j * 65536 + oy),
            ),
            self.center@,
        )
    }

    /// A ray `get_ray` may hand out for pixel (i, j) with the given jitter:
    /// from the camera centre toward the jittered target, offsets within
    /// half a pixel step on each axis.
    pub open spec fn jittered_ray(&self, i: int, j: int, ox: int, oy: int, r: RayV) -> bool {
        &&& -32768 <= ox < 32768
        &&& -32768 <= oy < 32768
        &&& r.orig == self.center@
        &&& r.dir == self.ray_dir_spec(i, j, ox, oy)
    }

    /// A ray `get_ray` may hand out for pixel (i, j), for some jitter.
    pub open spec fn is_camera_ray(&self, i: int, j: int, r: RayV) -> bool {
        exists|ox: int, oy: int| self.jittered_ray(i, j, ox, oy, r)
    }

    /// One shading sample for pixel (i, j): `ray_colour`'s guarantee for the
    /// admissible camera ray `r` at the full bounce budget.
    pub open spec fn camera_sample<T: Hittable>(
        &self,
        world: T,
        i: int,
        j: int,
        r: RayV,
        c: V3,
    ) -> bool {
        &&& self.is_camera_ray(i, j, r)
        &&& ray_wf(r)
        &&& shade_outcome(world, self.max_depth as int, r, c)
    }

    /// What one shading sample of pixel (i, j) may be, over all jitters.
    pub open spec fn sample_outcome<T: Hittable>(&self, world: T, i: int, j: int, c: V3) -> bool {
        exists|r: RayV| self.camera_sample(world, i, j, r, c)
    }

    /// The pixel is the quantization of the truncated average of exactly
    /// `samples_per_pixel` admissible sample colours for pixel (i, j).
    pub open spec fn pixel_from_samples<T: Hittable>(
        &self,
        world: T,
        i: int,
        j: int,
        cols: Seq<V3>,
        px: Rgb,
    ) -> bool {
        &&& cols.len() == self.samples_per_pixel
        &&& (forall|s: int|
            0 <= s < cols.len() ==> self.sample_outcome(world, i, j, #[trigger] cols[s]))
        &&& px.r == quantize_channel_spec(
            div_trunc(colour_sum(cols).x, self.samples_per_pixel as int),
        )
        &&& px.g == quantize_channel_spec(
            div_trunc(colour_sum(cols).y, self.samples_per_pixel as int),
        )
        &&& px.b == quantize_channel_spec(
            div_trunc(colour_sum(cols).z, self.samples_per_pixel as int),
        )
    }

    /// What one rendered pixel may be, over all sample draws.
    pub open spec fn pixel_outcome<T: Hittable>(&self, world: T, i: int, j: int, px: Rgb) -> bool {
        exists|cols: Seq<V3>| self.pixel_from_samples(world, i, j, cols, px)
    }

    /// The geometric facts `get_ray` and `render` rely on.
    pub open spec fn wf(&self) -> bool {
        &&& 1 <= self.img_width <= 16384
        &&& 1 <= self.img_height <= 0x40000
        &&& 1 <= self.samples_per_pixel <= 1024
        &&& self.center@ == v3_zero()
        &&& in_bounds(self.pixel_00_loc@, 0x80_0000)
        &&& self.pixel_00_loc@.z == -65536
        &&& self.pixel_du@.y == 0 && self.pixel_du@.z == 0
        &&& self.pixel_dv@.x == 0 && self.pixel_dv@.z == 0
        &&& 0 <= self.pixel_du@.x
        &&& self.pixel_du@.x * self.img_width <= 0x40_0000
        &&& -131072 <= self.pixel_dv@.y <= 0
        &&& self.pixel_dv@.y * self.img_height >= -131072
    }

    /// Derives the whole viewport geometry from the aspect ratio and the
    /// requested width: image height at least 1, a viewport of height 2 one
    /// focal length in front of the origin, spanning +X and -Y. The
    /// parameter ranges are the fixed-point model's working envelope, chosen
    /// with round margins rather than at the arithmetic's exact limits.
    pub fn new(aspect_ratio: i64, img_width: i64, samples_per_pixel: i64, max_depth: i64) -> (
        cam: Camera)
        requires
            4096 <= aspect_ratio <= 1048576,
            1 <= img_width <= 16384,
            1 <= samples_per_pixel <= 1024,
            0 <= max_depth,
        ensures
            cam.aspect_ratio == aspect_ratio,
            cam.img_width == img_width,
            cam.samples_per_pixel == samples_per_pixel,
            cam.max_depth == max_depth,
            cam.img_height == spec_img_height(img_width as int, aspect_ratio as int),
            cam.center@ == v3_zero(),
            cam.pixel_du@ == (V3 {
                x: spec_du(img_width as int, cam.img_height as int),
                y: 0,
                z: 0,
            }),
            cam.pixel_dv@ == (V3 { x: 0, y: spec_dv(cam.img_height as int), z: 0 }),
            cam.pixel_00_loc@ == spec_pixel00(img_width as int, cam.img_height as int),
            cam.wf(),
    {
        proof {
            lemma_camera_geometry(img_width as int, aspect_ratio as int);
        }
        // Image: calculate the height and ensure that it is at least 1.
        let mut img_height = div_trunc_i128(
            (img_width as i128) * 65536,
            aspect_ratio as i128,
        ) as i64;
        img_height = if img_height < 1 {
            1
        } else {
            img_height
        };
        let ratio = div_trunc_i128((img_width as i128) * 65536, img_height as i128) as i64;
        let viewport_width = 2 * ratio;
        let center = Vec3::zeros();
        let du_x = div_trunc_i128(viewport_width as i128, img_width as i128) as i64;
        let dv_y = -(div_trunc_i128(131072, img_height as i128) as i64);
        let pixel_du = Vec3::new(du_x, 0, 0);
        let pixel_dv = Vec3::new(0, dv_y, 0);
        let pixel_00_loc = Vec3::new(
            -(div_trunc_i128(viewport_width as i128, 2) as i64) + div_trunc_i128(
                du_x as i128,
                2,
            ) as i64,
            65536 + div_trunc_i128(dv_y as i128, 2) as i64,
            -65536,
        );
        Camera {
            aspect_ratio,
            img_width,
            samples_per_pixel,
            max_depth,
            img_height,
            center,
            pixel_00_loc,
            pixel_du,
            pixel_dv,
        }
    }

    /// A random offset in `[-0.5, 0.5)` for each of the pixel's local axes.
    pub fn sample_square(&self) -> (r: Vec3)
        ensures
            -32768 <= r@.x < 32768,
            -32768 <= r@.y < 32768,
            r@.z == 0,
    {
        Vec3::new(rand_fx() - 32768, rand_fx() - 32768, 0)
    }

    /// A camera ray from the centre toward a jittered sample point inside
    /// pixel (i, j).
    pub fn get_ray(&self, i: i64, j: i64) -> (r: Ray)
        requires
            self.wf(),
            0 <= i < self.img_width,
            0 <= j < self.img_height,
        ensures
            ray_wf(r@),
            r@.orig == v3_zero(),
            self.is_camera_ray(i as int, j as int, r@),
    {
        let offset = self.sample_square();
        let iu = i * 65536 + offset.x;
        let jv = j * 65536 + offset.y;
        proof {
            lemma_jitter_scale(self.pixel_du@.x, iu as int, self.img_width as int);
            assert(-131072 * 65536 <= self.pixel_dv@.y * jv <= 131072 * 65536)
                by (nonlinear_arith)
                requires
                    -131072 <= self.pixel_dv@.y <= 0,
                    self.pixel_dv@.y * self.img_height >= -131072,
                    -65536 <= jv,
                    jv <= self.img_height * 65536,
                    1 <= self.img_height,
            ;
            lemma_div_trunc_magnitude(self.pixel_dv@.y * jv, fx_one_int());
            lemma_div_trunc_magnitude(self.pixel_du@.x * iu, fx_one_int());
        }
        let pix_sample = self.pixel_00_loc.add(&self.pixel_du.scale(iu)).add(
            &self.pixel_dv.scale(jv),
        );
        let ray_orig = self.center;
        let ray_dir = pix_sample.sub(&ray_orig);
        proof {
            assert(dot_raw(ray_dir@, ray_dir@) >= 65536 * 65536) by (nonlinear_arith)
                requires
                    ray_dir@.z == -65536,
                    dot_raw(ray_dir@, ray_dir@) == ray_dir@.x * ray_dir@.x + ray_dir@.y
                        * ray_dir@.y + ray_dir@.z * ray_dir@.z,
            ;
        }
        let r = Ray::new(ray_orig, ray_dir);
        proof {
            assert(self.jittered_ray(
                i as int,
                j as int,
                offset@.x,
                offset@.y,
                r@,
            ));
        }
        r
    }

    /// The colour carried back along a ray: black once the bounce budget is
    /// exhausted, the attenuated colour of a diffuse bounce on a hit, and
    /// the sky gradient where nothing is struck.
    pub fn ray_colour<T: Hittable>(&self, r: &Ray, depth: i64, world: &T) -> (c: Vec3)
        requires
            world.wf(),
            ray_wf(r@),
        ensures
            shade_outcome(*world, depth as int, r@, c@),
        decreases depth,
    {
        if depth <= 0 {
            return Vec3::new(0, 0, 0);
        }
        proof {
            world.lemma_hit_props(r@, HIT_EPS as int, i64::MAX as int);
        }
        match world.hit(r, Interval::new(HIT_EPS, i64::MAX)) {
            Some(hit_rec) => {
                // Diffuse bounce: scatter along normal + unit-sphere sample,
                // resampling the rare degenerate (near-cancelling) direction.
                let mut scatter = Vec3::new(0, 0, 0);
                let mut found = false;
                let mut k: u8 = 0;
                while k < 16
                    invariant
                        k <= 16,
                        in_bounds(hit_rec.normal@, 0x2000_0000_0000_0000),
                        found ==> in_bounds(scatter@, DIR_BOUND as int) && dot_raw(
                            scatter@,
                            scatter@,
                        ) >= DIR_QMIN,
                    decreases 16 - k,
                {
                    if !found {
                        let u = rand_unit_vec3();
                        let cand = hit_rec.normal.add(&u);
                        if -0x200_0000 <= cand.x && cand.x <= 0x200_0000 && -0x200_0000
                            <= cand.y && cand.y <= 0x200_0000 && -0x200_0000 <= cand.z
                            && cand.z <= 0x200_0000 && cand.dot_wide(&cand) >= 1073741824 {
                            scatter = cand;
                            found = true;
                        }
                    }
                    k = k + 1;
                }
                let pgood = -0x200_0000 <= hit_rec.p.x && hit_rec.p.x <= 0x200_0000
                    && -0x200_0000 <= hit_rec.p.y && hit_rec.p.y <= 0x200_0000 && -0x200_0000
                    <= hit_rec.p.z && hit_rec.p.z <= 0x200_0000;
                if !found || !pgood {
                    // A usable bounce could not be built: treat the path as
                    // absorbed rather than divide by a degenerate direction.
                    return Vec3::new(0, 0, 0);
                }
                let bounced = self.ray_colour(&Ray::new(hit_rec.p, scatter), depth - 1, world);
                proof {
                    lemma_attenuate(bounced@.x);
                    lemma_attenuate(bounced@.y);
                    lemma_attenuate(bounced@.z);
                }
                Vec3::new(
                    fx_mul(bounced.x, ATTENUATION),
                    fx_mul(bounced.y, ATTENUATION),
                    fx_mul(bounced.z, ATTENUATION),
                )
            },
            None => {
                let unit_direction = r.direction().unit();
                let anum = unit_direction.y + 65536;
                let araw = div_trunc_i128(anum as i128, 2) as i64;
                let a = Interval::new(0, FX_ONE).clamp(araw);
                proof {
                    lemma_sky_channel(a as int, SKY_R as int);
                    lemma_sky_channel(a as int, SKY_G as int);
                    lemma_sky_channel(a as int, SKY_B as int);
                }
                Vec3::new(
                    (65536 - a) + fx_mul(a, SKY_R),
                    (65536 - a) + fx_mul(a, SKY_G),
                    (65536 - a) + fx_mul(a, SKY_B),
                )
            },
        }
    }

    /// Renders one pixel: average the shading of `samples_per_pixel`
    /// jittered rays, then clamp, gamma-correct and quantize. A zero bounce
    /// budget renders exactly black.
    pub fn render_pixel<T: Hittable>(&self, i: i64, j: i64, world: &T) -> (px: Rgb)
        requires
            self.wf(),
            world.wf(),
            0 <= i < self.img_width,
            0 <= j < self.img_height,
        ensures
            self.pixel_outcome(*world, i as int, j as int, px),
            self.max_depth <= 0 ==> px == (Rgb { r: 0, g: 0, b: 0 }),
    {
        let mut pixel_col = Vec3::zeros();
        let mut s: i64 = 0;
        let ghost mut cols: Seq<V3> = Seq::empty();
        while s < self.samples_per_pixel
            invariant
                self.wf(),
                world.wf(),
                0 <= i < self.img_width,
                0 <= j < self.img_height,
                0 <= s <= self.samples_per_pixel,
                0 <= pixel_col@.x <= s * 65536,
                0 <= pixel_col@.y <= s * 65536,
                0 <= pixel_col@.z <= s * 65536,
                self.max_depth <= 0 ==> pixel_col@ == v3_zero(),
                cols.len() == s,
                pixel_col@ == colour_sum(cols),
                forall|t: int|
                    0 <= t < cols.len() ==> self.sample_outcome(
                        *world,
                        i as int,
                        j as int,
                        #[trigger] cols[t],
                    ),
            decreases self.samples_per_pixel - s,
        {
            let ray = self.get_ray(i, j);
            let col = self.ray_colour(&ray, self.max_depth, world);
            proof {
                assert(self.camera_sample(*world, i as int, j as int, ray@, col@));
                let prev = cols;
                cols = cols.push(col@);
                assert(cols.drop_last() =~= prev);
                assert(cols.last() == col@);
                assert forall|t: int| 0 <= t < cols.len() implies self.sample_outcome(
                    *world,
                    i as int,
                    j as int,
                    #[trigger] cols[t],
                ) by {
                    if t < prev.len() {
                        assert(cols[t] == prev[t]);
                    } else {
                        assert(cols[t] == col@);
                    }
                }
            }
            pixel_col = pixel_col.add(&col);
            s = s + 1;
        }
        let avg = Vec3::new(
            div_trunc_i128(pixel_col.x as i128, self.samples_per_pixel as i128) as i64,
            div_trunc_i128(pixel_col.y as i128, self.samples_per_pixel as i128) as i64,
            div_trunc_i128(pixel_col.z as i128, self.samples_per_pixel as i128) as i64,
        );
        proof {
            lemma_div_trunc_magnitude(pixel_col@.x, self.samples_per_pixel as int);
            lemma_div_trunc_magnitude(pixel_col@.y, self.samples_per_pixel as int);
            lemma_div_trunc_magnitude(pixel_col@.z, self.samples_per_pixel as int);
        }
        let px = quantize_colour(&avg);
        proof {
            assert(self.pixel_from_samples(*world, i as int, j as int, cols, px));
        }
        px
    }

    /// Renders the full image, row-major, top-to-bottom and left-to-right
    /// within each row: entry `k` is a `render_pixel` outcome for pixel
    /// `(k % width, k / width)`.
    pub fn render<T: Hittable>(&self, world: &T) -> (img: Vec<Rgb>)
        requires
            self.wf(),
            world.wf(),
        ensures
            img@.len() == self.img_height * self.img_width,
            forall|k: int|
                0 <= k < img@.len() ==> self.pixel_outcome(
                    *world,
                    k % (self.img_width as int),
                    k / (self.img_width as int),
                    #[trigger] img@[k],
                ),
            self.max_depth <= 0 ==> forall|k: int|
                0 <= k < img@.len() ==> img@[k] == (Rgb { r: 0, g: 0, b: 0 }),
    {
        let mut img: Vec<Rgb> = Vec::new();
        let mut j: i64 = 0;
        while j < self.img_height
            invariant
                self.wf(),
                world.wf(),
                0 <= j <= self.img_height,
                img@.len() == j * self.img_width,
                forall|k: int|
                    0 <= k < img@.len() ==> self.pixel_outcome(
                        *world,
                        k % (self.img_width as int),
                        k / (self.img_width as int),
                        #[trigger] img@[k],
                    ),
                self.max_depth <= 0 ==> forall|k: int|
                    0 <= k < img@.len() ==> img@[k] == (Rgb { r: 0, g: 0, b: 0 }),
            decreases self.img_height - j,
        {
            let mut i: i64 = 0;
            while i < self.img_width
                invariant
                    self.wf(),
                    world.wf(),
                    0 <= j < self.img_height,
                    0 <= i <= self.img_width,
                    img@.len() == j * self.img_width + i,
                    forall|k: int|
                        0 <= k < img@.len() ==> self.pixel_outcome(
                            *world,
                            k % (self.img_width as int),
                            k / (self.img_width as int),
                            #[trigger] img@[k],
                        ),
                    self.max_depth <= 0 ==> forall|k: int|
                        0 <= k < img@.len() ==> img@[k] == (Rgb { r: 0, g: 0, b: 0 }),
                decreases self.img_width - i,
            {
                let ghost prev = img@;
                let px = self.render_pixel(i, j, world);
                img.push(px);
                proof {
                    vstd::arithmetic::div_mod::lemma_fundamental_div_mod_converse(
                        j * self.img_width + i,
                        self.img_width as int,
                        j as int,
                        i as int,
                    );
                    assert forall|k: int| 0 <= k < img@.len() implies self.pixel_outcome(
                        *world,
                        k % (self.img_width as int),
                        k / (self.img_width as int),
                        #[trigger] img@[k],
                    ) by {
                        if k < prev.len() {
                            assert(img@[k] == prev[k]);
                        } else {
                            assert(img@[k] == px);
                            assert(k == j * self.img_width + i);
                        }
                    }
                }
                i = i + 1;
            }
            proof {
                assert((j + 1) * self.img_width == j * self.img_width + self.img_width)
                    by (nonlinear_arith);
            }
            j = j + 1;
        }
        img
    }
}

/// A channel in `[0, 1]` attenuated by the reflectance stays in `[0, 0.9]`.
proof fn lemma_attenuate(v: int)
    requires
        0 <= v <= 65536,
    ensures
        0 <= fx_mul_spec(v, ATTENUATION as int) <= ATTENUATION,
        v * (ATTENUATION as int) <= 65536 * 58982,
        v * (ATTENUATION as int) >= 0,
{
    lemma_div_trunc_magnitude(v * 58982, fx_one_int());
}

/// A sky channel with a clamped blend factor stays in `[0, 1]`.
proof fn lemma_sky_channel(a: int, tint: int)
    requires
        0 <= a <= 65536,
        0 <= tint <= 65536,
    ensures
        0 <= sky_channel(a, tint) <= 65536,
        0 <= a * tint <= 65536 * 65536,
{
    assert(0 <= a * tint <= 65536 * 65536) by (nonlinear_arith)
        requires
            0 <= a <= 65536,
            0 <= tint <= 65536,
    ;
    lemma_div_trunc_magnitude(a * tint, fx_one_int());
    assert(fx_mul_spec(a, tint) * 65536 <= a * tint);
    assert(a * tint <= a * 65536) by (nonlinear_arith)
        requires
            0 <= a,
            tint <= 65536,
    ;
}

/// The horizontal jitter scale stays within the viewport: the step times a
/// sample coordinate inside the image keeps the target's X bounded.
proof fn lemma_jitter_scale(du: int, iu: int, w: int)
    requires
        0 <= du,
        1 <= w <= 16384,
        du * w <= 0x40_0000,
        -65536 <= iu <= w * 65536,
    ensures
        -65536 * 0x40_0000 <= du * iu <= 0x40_0000 * 65536,
        -0x40_0000 <= div_trunc(du * iu, 65536) <= 0x40_0000,
{
    assert(du * iu <= 0x40_0000 * 65536 && du * iu >= -65536 * 0x40_0000) by (nonlinear_arith)
        requires
            0 <= du,
            du * w <= 0x40_0000,
            -65536 <= iu <= w * 65536,
            1 <= w,
    ;
    lemma_div_trunc_magnitude(du * iu, 65536);
}

/// Geometry bounds established once at camera construction.
proof fn lemma_camera_geometry(w: int, ar: int)
    requires
        1 <= w <= 16384,
        4096 <= ar <= 1048576,
    ensures
        1 <= spec_img_height(w, ar) <= 0x40000,
        0 <= spec_viewport_width(w, spec_img_height(w, ar)) <= 0x40_0000,
        0 <= spec_du(w, spec_img_height(w, ar)),
        spec_du(w, spec_img_height(w, ar)) * w <= spec_viewport_width(w, spec_img_height(w, ar)),
        -131072 <= spec_dv(spec_img_height(w, ar)) <= 0,
        spec_dv(spec_img_height(w, ar)) * spec_img_height(w, ar) >= -131072,
        in_bounds(spec_pixel00(w, spec_img_height(w, ar)), 0x80_0000),
{
    let dh = div_trunc(w * 65536, ar);
    let ih = spec_img_height(w, ar);
    lemma_div_trunc_sign(w * 65536, ar);
    lemma_div_trunc_magnitude(w * 65536, ar);
    assert(dh <= 0x40000) by (nonlinear_arith)
        requires
            4096 <= ar,
            0 <= ar * dh <= w * 65536,
            w <= 16384,
            0 <= dh,
    ;
    let rw = div_trunc(w * 65536, ih);
    lemma_div_trunc_sign(w * 65536, ih);
    lemma_div_trunc_magnitude(w * 65536, ih);
    if dh < 1 {
        // The height clamps to 1, and the width itself is below the ratio.
        assert(w * 65536 < ar) by (nonlinear_arith)
            requires
                ar * dh > w * 65536 - ar,
                dh <= 0,
                ar >= 1,
        ;
        assert(rw <= w * 65536);
        assert(2 * rw <= 0x40_0000);
    } else {
        assert(rw <= 2 * ar) by (nonlinear_arith)
            requires
                1 <= ih,
                ar >= 1,
                ih * rw <= w * 65536 || rw <= 0,
                rw >= 0,
                ar * ih > w * 65536 - ar,
    ;
        assert(2 * rw <= 0x40_0000);
    }
    let vw = spec_viewport_width(w, ih);
    lemma_div_trunc_sign(vw, w);
    lemma_div_trunc_magnitude(vw, w);
    lemma_div_trunc_sign(131072, ih);
    lemma_div_trunc_magnitude(131072, ih);
    lemma_div_trunc_sign(vw, 2);
    lemma_div_trunc_magnitude(vw, 2);
    let du = spec_du(w, ih);
    lemma_div_trunc_sign(du, 2);
    lemma_div_trunc_magnitude(du, 2);
    assert(du <= vw) by (nonlinear_arith)
        requires
            1 <= w,
            0 <= du,
            w * du <= vw,
    ;
    assert(du * w <= vw) by (nonlinear_arith)
        requires
            w * du <= vw,
    ;
    let dv = spec_dv(ih);
    lemma_div_trunc_sign(dv, 2);
    lemma_div_trunc_magnitude(dv, 2);
    assert(dv * ih >= -131072) by (nonlinear_arith)
        requires
            dv == -div_trunc(131072, ih),
            0 <= ih * div_trunc(131072, ih) <= 131072,
    ;
}

} // verus!
