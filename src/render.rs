use vstd::prelude::*;
use rand::rngs::StdRng;
use crate::camera::{Camera, camera_for, ray_through};
use crate::hittable::{HitRecord, HittableList, Sphere, misses_all, nearest_hit};
use crate::material::{Material, unit_color, unit_of};
use crate::random::{in_unit_ball, random_fraction};
use crate::ray::Ray;
use crate::vec3::{Color, Vec3, ONE, fmul, vmul, isqrt, root, dot_spec};

verus! {

/// Smallest ray parameter that counts as a hit (about 0.001), so that a
/// scattered ray does not meet the surface it leaves.
pub const T_MIN: i64 = 4;

/// Largest ray parameter: no upper limit in practice.
pub const T_MAX: i64 = i64::MAX;

/// Color of the sky straight up: (0.5, 0.7, 1.0).
pub const SKY_X: i64 = 2048;
pub const SKY_Y: i64 = 2867;
pub const SKY_Z: i64 = 4096;

/// `(1 - t) * 1 + t * top`, in fixed point.
pub open spec fn blend(t: int, top: int) -> int {
    fmul(ONE - t, ONE as int) + fmul(t, top)
}

/// Height of the unit direction on a `[0, 1]` scale.
pub open spec fn gradient_t(r: Ray) -> int {
    (unit_of(r.direction).y + ONE) / 2
}

/// The vertical gradient from white at the horizon to sky blue at the zenith.
pub open spec fn background_spec(r: Ray) -> Color {
    let t = gradient_t(r);
    Vec3 { x: blend(t, SKY_X as int) as i64, y: blend(t, SKY_Y as int) as i64, z: blend(t, SKY_Z as int) as i64 }
}

pub open spec fn black() -> Color {
    Vec3 { x: 0, y: 0, z: 0 }
}

/// Every channel of `c` is at most the same channel of `a`.
pub open spec fn below(c: Color, a: Color) -> bool {
    c.x <= a.x && c.y <= a.y && c.z <= a.z
}

proof fn lemma_blend(t: int, top: int)
    requires
        0 <= t <= ONE,
        0 <= top <= ONE,
    ensures
        0 <= blend(t, top) <= ONE,
        top >= ONE / 2 ==> blend(t, top) >= ONE / 2,
{
    let k = ONE as int;
    assert(fmul(k - t, k) == k - t) by (nonlinear_arith) requires k == 4096;
    assert(0 <= fmul(t, top) <= t) by (nonlinear_arith) requires 0 <= t <= k, 0 <= top <= k, k == 4096;
    assert(top >= k / 2 ==> fmul(t, top) >= t / 2) by (nonlinear_arith) requires 0 <= t <= k, 0 <= top <= k, k == 4096;
}

fn blend_channel(t: i64, top: i64) -> (c: i64)
    requires
        0 <= t <= ONE,
        0 <= top <= ONE,
    ensures
        c == blend(t as int, top as int),
{
    proof { lemma_blend(t as int, top as int); }
    ((ONE - t) as i128 * ONE as i128 / ONE as i128 + t as i128 * top as i128 / ONE as i128) as i64
}

pub fn background(r: &Ray) -> (c: Color)
    requires
        r.wf(),
    ensures
        c == background_spec(*r),
        unit_color(c),
{
    let u = r.direction.unit_vector();
    let t = (u.y + ONE) / 2;
    proof {
        lemma_blend(t as int, SKY_X as int);
        lemma_blend(t as int, SKY_Y as int);
        lemma_blend(t as int, SKY_Z as int);
    }
    Vec3::new(blend_channel(t, SKY_X), blend_channel(t, SKY_Y), blend_channel(t, SKY_Z))
}

proof fn lemma_attenuate(a: Color, c: Color)
    requires
        unit_color(a),
        unit_color(c),
    ensures
        unit_color(vmul(a, c)),
        below(vmul(a, c), a),
{
    let k = ONE as int;
    assert(forall|p: int, q: int| 0 <= p <= k && 0 <= q <= k ==> 0 <= #[trigger] fmul(p, q) <= p) by {
        assert forall|p: int, q: int| 0 <= p <= k && 0 <= q <= k implies 0 <= #[trigger] fmul(p, q) <= p by {
            assert(0 <= (p * q) / 4096 <= p) by (nonlinear_arith) requires 0 <= p <= k, 0 <= q <= k, k == 4096;
        }
    }
}

/// The color seen along `r`: black once `depth` bounces are spent, the
/// background on a miss, black when the surface absorbs the ray, and else the
/// attenuation times the color seen along the scattered ray.
pub fn ray_color(r: &Ray, world: &HittableList, depth: i32, rng: &mut StdRng) -> (c: Color)
    requires
        world.wf(),
        r.wf(),
    ensures
        unit_color(c),
        depth <= 0 ==> c == black(),
        depth > 0 && misses_all(world.objects@, *r, T_MIN as int, T_MAX as int) ==> c == background_spec(*r),
        depth > 0 && !misses_all(world.objects@, *r, T_MIN as int, T_MAX as int) ==> exists|h: HitRecord, s: Vec3|
            nearest_hit(world.objects@, *r, T_MIN as int, T_MAX as int, h) && in_unit_ball(s)
                && below(c, h.material.albedo())
                && match h.material.scatter_spec(*r, h, s) {
                    None => c == black(),
                    Some((att, _)) => exists|next: Color| unit_color(next) && c == vmul(att, next),
                },
    decreases depth,
{
    if depth <= 0 {
        return Vec3::new(0, 0, 0);
    }
    match world.hit(r, T_MIN, T_MAX) {
        Some(rec) => {
            let outcome = rec.material.scatter(r, &rec, rng);
            let ghost s = choose|s: Vec3| in_unit_ball(s) && outcome == rec.material.scatter_spec(*r, rec, s);
            match outcome {
                Some((attenuation, scattered)) => {
                    let next = ray_color(&scattered, world, depth - 1, rng);
                    proof {
                        lemma_attenuate(attenuation, next);
                        assert(attenuation == rec.material.albedo());
                    }
                    attenuation.mul(&next)
                },
                None => Vec3::new(0, 0, 0),
            }
        },
        None => background(r),
    }
}

/// Straight up, the background is the zenith sky color (0.5, 0.7, 1.0);
/// straight down, it is white.
pub proof fn lemma_background_vertical(origin: Vec3, k: i64)
    requires
        0 < k <= crate::ray::WORLD,
        (Ray { origin, direction: Vec3 { x: 0, y: k, z: 0 } }).wf(),
    ensures
        background_spec(Ray { origin, direction: Vec3 { x: 0, y: k, z: 0 } })
            == (Vec3 { x: SKY_X, y: SKY_Y, z: SKY_Z }),
        background_spec(Ray { origin, direction: Vec3 { x: 0, y: (-k) as i64, z: 0 } })
            == (Vec3 { x: ONE, y: ONE, z: ONE }),
{
    let kk = k as int;
    let up = Vec3 { x: 0, y: k, z: 0 };
    let down = Vec3 { x: 0, y: (-k) as i64, z: 0 };
    assert(dot_spec(up, up) == kk * kk);
    assert(dot_spec(down, down) == kk * kk) by (nonlinear_arith)
        requires dot_spec(down, down) == 0 * 0 + (-kk) * (-kk) + 0 * 0;
    assert(crate::vec3::is_root(kk * kk, kk)) by (nonlinear_arith) requires kk > 0;
    crate::vec3::lemma_root_unique(kk * kk, kk);
    assert((kk * 4096) / kk == 4096) by (nonlinear_arith) requires kk > 0;
    assert((-kk * 4096) / kk == -4096) by (nonlinear_arith) requires kk > 0;
    assert((0int * 4096) / kk == 0) by (nonlinear_arith) requires kk > 0;
    let k1 = ONE as int;
    assert(forall|top: int| #[trigger] fmul(0, top) == 0) by {
        assert forall|top: int| #[trigger] fmul(0, top) == 0 by {
            assert(0 * top == 0) by (nonlinear_arith);
        }
    }
    assert(forall|top: int| #[trigger] fmul(k1, top) == top) by {
        assert forall|top: int| #[trigger] fmul(k1, top) == top by {
            assert((4096 * top) / 4096 == top) by (nonlinear_arith);
        }
    }
    assert(fmul(k1, k1) == k1);
}

/// Every channel of the background is at least one half, so a color that a
/// surface of albedo at most one half lets through never outshines it.
pub proof fn lemma_background_floor(r: Ray, c: Color)
    requires
        r.wf(),
        below(c, Vec3 { x: SKY_X, y: SKY_X, z: SKY_X }),
    ensures
        below(c, background_spec(r)),
{
    crate::vec3::lemma_unit_within(r.direction);
    let t = gradient_t(r);
    lemma_blend(t, SKY_X as int);
    lemma_blend(t, SKY_Y as int);
    lemma_blend(t, SKY_Z as int);
}

/// Channel ceiling before quantizing (0.999).
pub const CLAMP_MAX: i64 = 4091;

/// Largest image side and sample count that the fixed-point sums carry.
pub const MAX_SIDE: u32 = 0x1_0000;

/// The byte of a channel whose samples sum to `sum` over `samples` samples:
/// averaged, gamma-2 corrected (square root), clamped to 0.999, scaled by 255.
pub open spec fn gamma_byte(sum: int, samples: int) -> int {
    let g = root((sum / samples) * ONE);
    let c = if g < CLAMP_MAX { g } else { CLAMP_MAX as int };
    (c * 255) / (ONE as int)
}

pub fn to_byte(sum: i64, samples: u32) -> (b: u8)
    requires
        1 <= samples <= MAX_SIDE,
        0 <= sum <= samples * ONE,
    ensures
        b == gamma_byte(sum as int, samples as int),
        b <= 254,
{
    let avg = sum / samples as i64;
    assert(0 <= avg <= ONE) by (nonlinear_arith)
        requires avg == (sum as int) / (samples as int), 1 <= samples, 0 <= sum <= samples * 4096;
    let g = isqrt((avg * ONE) as u128) as i64;
    let c = if g < CLAMP_MAX { g } else { CLAMP_MAX };
    assert(0 <= (c * 255) / 4096 <= 254) by (nonlinear_arith) requires 0 <= c <= 4091;
    ((c * 255) / ONE) as u8
}

/// The fixed-point viewport coordinate of pixel index `i` plus a jitter `j`
/// in `[0, 1)`, over `n` pixels: `(i + j) / (n - 1)`.
pub open spec fn jittered(i: int, j: int, n: int) -> int {
    (i * ONE + j) / (n - 1)
}

pub fn viewport_coord(i: u32, j: i64, n: u32) -> (c: i64)
    requires
        2 <= n <= MAX_SIDE,
        i < n,
        0 <= j < ONE,
    ensures
        c == jittered(i as int, j as int, n as int),
        0 <= c <= 2 * ONE,
{
    let num = i as i64 * ONE + j;
    let den = n as i64 - 1;
    assert(0 <= (num as int) / (den as int) <= 2 * 4096) by (nonlinear_arith)
        requires num == i * 4096 + j, den == n - 1, 0 <= i <= den, den >= 1, 0 <= j < 4096;
    num / den
}

/// The camera ray for pixel `(x, y)` of a `w` by `h` image (row 0 at the
/// top) with jitters `ju`, `jv` in `[0, 1)`.
pub open spec fn pixel_ray(cam: Camera, x: int, y: int, w: int, h: int, ju: int, jv: int) -> Ray {
    ray_through(cam, jittered(x, ju, w), jittered(h - y - 1, jv, h))
}

/// What every color that `ray_color` returns for `r` satisfies.
pub open spec fn traced(world: Seq<Sphere>, r: Ray, depth: int, c: Color) -> bool {
    &&& unit_color(c)
    &&& depth <= 0 ==> c == black()
    &&& depth > 0 && misses_all(world, r, T_MIN as int, T_MAX as int) ==> c == background_spec(r)
}

/// Channel sums of a sequence of colors.
pub open spec fn sum_colors(cs: Seq<Color>) -> (int, int, int)
    decreases cs.len(),
{
    if cs.len() == 0 {
        (0, 0, 0)
    } else {
        let (a, b, c) = sum_colors(cs.drop_last());
        let l = cs.last();
        (a + l.x, b + l.y, c + l.z)
    }
}

/// `sum` adds up `samples` colors, each traced along the ray through pixel
/// `(x, y)` with its own jitter.
pub open spec fn pixel_outcome(
    cam: Camera,
    world: Seq<Sphere>,
    x: int,
    y: int,
    w: int,
    h: int,
    samples: int,
    depth: int,
    sum: Color,
) -> bool {
    exists|us: Seq<int>, vs: Seq<int>, cs: Seq<Color>|
        us.len() == samples && vs.len() == samples && cs.len() == samples
            && sum_colors(cs) == (sum.x as int, sum.y as int, sum.z as int)
            && forall|k: int| 0 <= k < samples ==>
                0 <= #[trigger] us[k] < ONE && 0 <= vs[k] < ONE
                    && traced(world, pixel_ray(cam, x, y, w, h, us[k], vs[k]), depth, cs[k])
}

/// The settings of a render: image width, aspect ratio as `aspect_w /
/// aspect_h`, samples per pixel, and bounce limit.
#[derive(Clone, Copy, PartialEq, Eq, Structural, Debug)]
pub struct RenderConfig {
    pub image_width: u32,
    pub aspect_w: i64,
    pub aspect_h: i64,
    pub samples_per_pixel: u32,
    pub max_depth: i32,
}

pub open spec fn height_spec(width: int, aspect_w: int, aspect_h: int) -> int {
    (width * aspect_h) / aspect_w
}

impl RenderConfig {
    pub open spec fn wf(self) -> bool {
        &&& 0 < self.aspect_h
        &&& 0 < self.aspect_w <= crate::camera::MAX_ASPECT * self.aspect_h
        &&& 2 <= self.image_width <= MAX_SIDE
        &&& 2 <= height_spec(self.image_width as int, self.aspect_w as int, self.aspect_h as int) <= MAX_SIDE
        &&& 1 <= self.samples_per_pixel <= MAX_SIDE
    }

    /// Image height: the width over the aspect ratio, rounded down.
    pub fn image_height(&self) -> (h: u32)
        requires
            self.wf(),
        ensures
            h == height_spec(self.image_width as int, self.aspect_w as int, self.aspect_h as int),
    {
        let (w, ah) = (self.image_width as i128, self.aspect_h as i128);
        assert(0 <= w * ah <= 0x1_0000 * 0x7fff_ffff_ffff_ffff) by (nonlinear_arith)
            requires 0 <= w <= 0x1_0000, 0 < ah <= 0x7fff_ffff_ffff_ffff;
        ((w * ah) / self.aspect_w as i128) as u32
    }
}

/// Pixel `p` (counted row-major from the top left) holds the bytes `r`, `g`,
/// `b` of some sum of traced samples for that pixel.
pub open spec fn pixel_bytes(cfg: RenderConfig, world: Seq<Sphere>, p: int, r: u8, g: u8, b: u8) -> bool {
    let w = cfg.image_width as int;
    let h = height_spec(w, cfg.aspect_w as int, cfg.aspect_h as int);
    let n = cfg.samples_per_pixel as int;
    exists|sum: Color|
        pixel_outcome(camera_for(cfg.aspect_w as int, cfg.aspect_h as int), world, p % w, p / w, w, h,
            n, cfg.max_depth as int, sum)
            && r == gamma_byte(sum.x as int, n) && g == gamma_byte(sum.y as int, n)
            && b == gamma_byte(sum.z as int, n)
}

/// The sum of `samples` jittered camera rays through pixel `(x, y)`, with
/// row 0 at the top of the image.
pub fn sample_pixel(
    cam: &Camera,
    world: &HittableList,
    x: u32,
    y: u32,
    width: u32,
    height: u32,
    samples: u32,
    max_depth: i32,
    rng: &mut StdRng,
) -> (sum: Color)
    requires
        cam.wf(),
        world.wf(),
        2 <= width <= MAX_SIDE,
        2 <= height <= MAX_SIDE,
        x < width,
        y < height,
        samples <= MAX_SIDE,
    ensures
        0 <= sum.x <= samples * ONE,
        0 <= sum.y <= samples * ONE,
        0 <= sum.z <= samples * ONE,
        pixel_outcome(*cam, world.objects@, x as int, y as int, width as int, height as int,
            samples as int, max_depth as int, sum),
{
    let mut sum = Vec3::new(0, 0, 0);
    let mut k: u32 = 0;
    let ghost mut us: Seq<int> = Seq::empty();
    let ghost mut vs: Seq<int> = Seq::empty();
    let ghost mut cs: Seq<Color> = Seq::empty();
    while k < samples
        invariant
            cam.wf(),
            world.wf(),
            2 <= width <= MAX_SIDE,
            2 <= height <= MAX_SIDE,
            x < width,
            y < height,
            samples <= MAX_SIDE,
            k <= samples,
            0 <= sum.x <= k * ONE,
            0 <= sum.y <= k * ONE,
            0 <= sum.z <= k * ONE,
            us.len() == k && vs.len() == k && cs.len() == k,
            sum_colors(cs) == (sum.x as int, sum.y as int, sum.z as int),
            forall|j: int| 0 <= j < k ==>
                0 <= #[trigger] us[j] < ONE && 0 <= vs[j] < ONE
                    && traced(world.objects@, pixel_ray(*cam, x as int, y as int, width as int, height as int, us[j], vs[j]), max_depth as int, cs[j]),
        decreases samples - k,
    {
        let ju = random_fraction(rng);
        let jv = random_fraction(rng);
        let u = viewport_coord(x, ju, width);
        let v = viewport_coord(height - y - 1, jv, height);
        let r = cam.get_ray(u, v);
        let c = ray_color(&r, world, max_depth, rng);
        proof {
            let ncs = cs.push(c);
            assert(ncs.drop_last() == cs);
            us = us.push(ju as int);
            vs = vs.push(jv as int);
            cs = ncs;
        }
        sum = Vec3::new(sum.x + c.x, sum.y + c.y, sum.z + c.z);
        k = k + 1;
    }
    sum
}

/// Render the scene: three bytes (red, green, blue) per pixel, row-major,
/// top row first.
pub fn render(config: &RenderConfig, world: &HittableList, rng: &mut StdRng) -> (img: Vec<u8>)
    requires
        config.wf(),
        world.wf(),
    ensures
        img@.len() == 3 * config.image_width * height_spec(
            config.image_width as int,
            config.aspect_w as int,
            config.aspect_h as int,
        ),
        forall|i: int| 0 <= i < img@.len() ==> img@[i] <= 254,
        forall|p: int| 0 <= p < img@.len() / 3 ==> #[trigger] pixel_bytes(*config, world.objects@, p,
            img@[3 * p], img@[3 * p + 1], img@[3 * p + 2]),
{
    let width = config.image_width;
    let height = config.image_height();
    let samples = config.samples_per_pixel;
    let cam = Camera::new(config.aspect_w, config.aspect_h);
    let mut img: Vec<u8> = Vec::new();
    let mut y: u32 = 0;
    while y < height
        invariant
            config.wf(),
            world.wf(),
            cam.wf(),
            width == config.image_width,
            samples == config.samples_per_pixel,
            height == height_spec(config.image_width as int, config.aspect_w as int, config.aspect_h as int),
            y <= height,
            img@.len() == 3 * width * y,
            forall|i: int| 0 <= i < img@.len() ==> img@[i] <= 254,
            cam == camera_for(config.aspect_w as int, config.aspect_h as int),
            forall|p: int| 0 <= p < width * y ==> #[trigger] pixel_bytes(*config, world.objects@, p,
                img@[3 * p], img@[3 * p + 1], img@[3 * p + 2]),
        decreases height - y,
    {
        let mut x: u32 = 0;
        while x < width
            invariant
                config.wf(),
                world.wf(),
                cam.wf(),
                width == config.image_width,
                samples == config.samples_per_pixel,
                height == height_spec(config.image_width as int, config.aspect_w as int, config.aspect_h as int),
                y < height,
                x <= width,
                img@.len() == 3 * width * y + 3 * x,
                forall|i: int| 0 <= i < img@.len() ==> img@[i] <= 254,
                cam == camera_for(config.aspect_w as int, config.aspect_h as int),
                forall|p: int| 0 <= p < width * y + x ==> #[trigger] pixel_bytes(*config, world.objects@, p,
                    img@[3 * p], img@[3 * p + 1], img@[3 * p + 2]),
            decreases width - x,
        {
            let sum = sample_pixel(&cam, world, x, y, width, height, samples, config.max_depth, rng);
            let ghost before = img@;
            let rb = to_byte(sum.x, samples);
            let gb = to_byte(sum.y, samples);
            let bb = to_byte(sum.z, samples);
            img.push(rb);
            img.push(gb);
            img.push(bb);
            proof {
                let p = width * y + x;
                vstd::arithmetic::div_mod::lemma_fundamental_div_mod_converse(p, width as int, y as int, x as int);
                assert(3 * p == 3 * width * y + 3 * x) by (nonlinear_arith)
                    requires p == width * y + x;
                assert(img@[3 * p] == rb && img@[3 * p + 1] == gb && img@[3 * p + 2] == bb);
                assert(pixel_bytes(*config, world.objects@, p, rb, gb, bb));
                assert forall|q: int| 0 <= q < width * y + x + 1 implies #[trigger] pixel_bytes(*config, world.objects@, q,
                    img@[3 * q], img@[3 * q + 1], img@[3 * q + 2]) by {
                    if q < p {
                        assert(img@[3 * q] == before[3 * q]);
                        assert(img@[3 * q + 1] == before[3 * q + 1]);
                        assert(img@[3 * q + 2] == before[3 * q + 2]);
                    }
                }
            }
            x = x + 1;
        }
        assert(3 * width * y + 3 * width == 3 * width * (y + 1)) by (nonlinear_arith);
        assert(width * y + width == width * (y + 1)) by (nonlinear_arith);
        y = y + 1;
    }
    assert(img@.len() / 3 == width * height) by (nonlinear_arith)
        requires img@.len() == 3 * width * height;
    img
}

} // verus!
