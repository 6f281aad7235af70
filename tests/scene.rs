use rand::rngs::StdRng;
use rand::SeedableRng;
use raytracer::camera::Camera;
use raytracer::hittable::{HittableList, Sphere};
use raytracer::material::{Lambertian, Material, MaterialKind, Metal};
use raytracer::random::{random_fraction, random_in_range, random_in_unit_sphere};
use raytracer::ray::Ray;
use raytracer::render::{background, ray_color, render, to_byte, viewport_coord, RenderConfig};
use raytracer::vec3::{isqrt, Vec3, ONE};

fn v(x: i64, y: i64, z: i64) -> Vec3 {
    Vec3::new(x, y, z)
}

fn grey(c: i64) -> MaterialKind {
    MaterialKind::Lambertian(Lambertian::new(v(c, c, c)))
}

fn four_sphere_world() -> HittableList {
    let mut world = HittableList::new();
    let ground = MaterialKind::Lambertian(Lambertian::new(v(3277, 3277, 0)));
    let center = MaterialKind::Lambertian(Lambertian::new(v(2867, 1229, 1229)));
    let left = MaterialKind::Metal(Metal::new(v(3277, 3277, 3277), 1229));
    let right = MaterialKind::Metal(Metal::new(v(3277, 2458, 819), ONE));
    world.add(Sphere::new(v(0, -100 * ONE - ONE / 2, -ONE), 100 * ONE, ground));
    world.add(Sphere::new(v(0, 0, -ONE), ONE / 2, center));
    world.add(Sphere::new(v(-ONE, 0, -ONE), ONE / 2, left));
    world.add(Sphere::new(v(ONE, 0, -ONE), ONE / 2, right));
    world
}

#[test]
fn hit_through_center_at_distance_less_radius() {
    let s = Sphere::new(v(0, 0, -3 * ONE), ONE, grey(2048));
    let r = Ray::new(v(0, 0, 0), v(0, 0, -ONE));
    let h = s.hit(&r, 4, i64::MAX).expect("a hit");
    assert_eq!(h.t, 2 * ONE);
    assert_eq!(h.p, v(0, 0, -2 * ONE));
    assert_eq!(h.normal, v(0, 0, ONE));
    assert!(h.front_face);
}

#[test]
fn hit_through_center_along_diagonal() {
    // direction (0.6, 0.8, 0) has unit length exactly in fixed point only up to
    // rounding, so the parameter is checked within one raw unit
    let d = v(2458, 3277, 0);
    let s = Sphere::new(v(5 * 2458, 5 * 3277, 0), 2 * ONE, grey(2048));
    let r = Ray::new(v(0, 0, 0), d);
    let h = s.hit(&r, 4, i64::MAX).expect("a hit");
    assert!((h.t - 3 * ONE).abs() <= 2, "t = {}", h.t);
}

#[test]
fn miss_when_closest_approach_exceeds_radius() {
    let s = Sphere::new(v(0, 0, -3 * ONE), ONE, grey(2048));
    let r = Ray::new(v(0, 2 * ONE, 0), v(0, 0, -ONE));
    assert!(s.hit(&r, 4, i64::MAX).is_none());
    let grazing_out = Ray::new(v(0, ONE + 1, 0), v(0, 0, -ONE));
    assert!(s.hit(&grazing_out, 4, i64::MAX).is_none());
}

#[test]
fn hit_outside_range_is_none() {
    let s = Sphere::new(v(0, 0, -3 * ONE), ONE, grey(2048));
    let r = Ray::new(v(0, 0, 0), v(0, 0, -ONE));
    assert!(s.hit(&r, 4, ONE).is_none());
    // from inside the sphere only the far root counts
    let inside = Ray::new(v(0, 0, -3 * ONE), v(0, 0, -ONE));
    let h = s.hit(&inside, 4, i64::MAX).expect("a hit");
    assert_eq!(h.t, ONE);
    assert!(!h.front_face);
    assert_eq!(h.normal, v(0, 0, ONE));
}

#[test]
fn nearest_of_two_overlapping_spheres() {
    let near = Sphere::new(v(0, 0, -3 * ONE), ONE, grey(1000));
    let far = Sphere::new(v(0, 0, -4 * ONE), ONE, grey(3000));
    let r = Ray::new(v(0, 0, 0), v(0, 0, -ONE));
    for order in [[far, near], [near, far]] {
        let mut world = HittableList::new();
        world.add(order[0]);
        world.add(order[1]);
        let h = world.hit(&r, 4, i64::MAX).expect("a hit");
        assert_eq!(h.t, 2 * ONE);
        assert_eq!(h.material, grey(1000));
    }
    assert!(HittableList::new().hit(&r, 4, i64::MAX).is_none());
}

#[test]
fn depth_zero_is_black() {
    let mut world = HittableList::new();
    world.add(Sphere::new(v(0, 0, -ONE), ONE / 2, grey(2048)));
    let mut rng = StdRng::seed_from_u64(1);
    let r = Ray::new(v(0, 0, 0), v(0, 0, -ONE));
    assert_eq!(ray_color(&r, &world, 0, &mut rng), v(0, 0, 0));
    assert_eq!(ray_color(&r, &world, -3, &mut rng), v(0, 0, 0));
}

#[test]
fn half_albedo_never_outshines_background() {
    let mut world = HittableList::new();
    world.add(Sphere::new(v(0, 0, -ONE), ONE / 2, grey(2048)));
    let mut rng = StdRng::seed_from_u64(7);
    for dx in -4..=4i64 {
        for dy in -4..=4i64 {
            let r = Ray::new(v(0, 0, 0), v(dx * 300, dy * 300, -ONE));
            let bg = background(&r);
            let c = ray_color(&r, &world, 50, &mut rng);
            assert!(c.x <= bg.x && c.y <= bg.y && c.z <= bg.z);
            assert!(c.x <= 2048 && c.y <= 2048 && c.z <= 2048 || c == bg);
        }
    }
}

#[test]
fn mirror_reflection_without_fuzz() {
    let m = Metal::new(v(4096, 2048, 1024), 0);
    let rec_normal = v(0, ONE, 0);
    let mut world = HittableList::new();
    world.add(Sphere::new(v(0, -ONE, 0), ONE, MaterialKind::Metal(m)));
    // straight down onto the top of the sphere
    let r_in = Ray::new(v(0, ONE, 0), v(0, -ONE, 0));
    let rec = world.hit(&r_in, 4, i64::MAX).expect("a hit");
    assert_eq!(rec.normal, rec_normal);
    let sample = v(100, 200, 300);
    let (att, out) = m.scatter_with(&r_in, &rec, &sample).expect("scatters");
    assert_eq!(att, v(4096, 2048, 1024));
    assert_eq!(out.direction, v(0, ONE, 0));
    assert_eq!(out.origin, rec.p);
    // at 45 degrees the reflection flips the vertical component
    let r45 = Ray::new(v(-ONE, ONE, 0), v(ONE, -ONE, 0));
    let rec45 = world.hit(&r45, 4, i64::MAX).expect("a hit");
    let (_, out45) = m.scatter_with(&r45, &rec45, &sample).expect("scatters");
    let u = v(ONE, -ONE, 0).unit_vector();
    let n = rec45.normal;
    let dot = u.x as i128 * n.x as i128 + u.y as i128 * n.y as i128 + u.z as i128 * n.z as i128;
    let k = (2 * dot).div_euclid(ONE as i128) as i64;
    let expect = v(
        u.x - (k as i128 * n.x as i128).div_euclid(ONE as i128) as i64,
        u.y - (k as i128 * n.y as i128).div_euclid(ONE as i128) as i64,
        u.z - (k as i128 * n.z as i128).div_euclid(ONE as i128) as i64,
    );
    assert_eq!(out45.direction, expect);
}

#[test]
fn metal_absorbs_reflection_into_surface() {
    let m = Metal::new(v(4096, 4096, 4096), 0);
    let mut world = HittableList::new();
    world.add(Sphere::new(v(0, -ONE, 0), ONE, MaterialKind::Metal(m)));
    let r_in = Ray::new(v(0, ONE, 0), v(0, -ONE, 0));
    let rec = world.hit(&r_in, 4, i64::MAX).expect("a hit");
    // an incoming ray travelling along the normal reflects back into the
    // surface when the record's normal is turned the other way
    let mut flipped = rec;
    flipped.normal = v(0, -ONE, 0);
    assert!(m.scatter_with(&r_in, &flipped, &v(1, 1, 1)).is_none());
}

#[test]
fn background_straight_up_and_down() {
    let up = Ray::new(v(0, 0, 0), v(0, ONE, 0));
    assert_eq!(background(&up), v(2048, 2867, 4096));
    let down = Ray::new(v(0, 0, 0), v(0, -ONE, 0));
    assert_eq!(background(&down), v(ONE, ONE, ONE));
    let long_up = Ray::new(v(5, 5, 5), v(0, 7 * ONE, 0));
    assert_eq!(background(&long_up), v(2048, 2867, 4096));
}

#[test]
fn background_through_empty_scene() {
    let world = HittableList::new();
    let mut rng = StdRng::seed_from_u64(3);
    let up = Ray::new(v(0, 0, 0), v(0, ONE, 0));
    assert_eq!(ray_color(&up, &world, 50, &mut rng), v(2048, 2867, 4096));
    let down = Ray::new(v(0, 0, 0), v(0, -ONE, 0));
    assert_eq!(ray_color(&down, &world, 50, &mut rng), v(ONE, ONE, ONE));
}

#[test]
fn render_is_deterministic_for_a_seed() {
    let world = four_sphere_world();
    let config = RenderConfig { image_width: 40, aspect_w: 16, aspect_h: 9, samples_per_pixel: 3, max_depth: 50 };
    assert_eq!(config.image_height(), 22);
    let a = render(&config, &world, &mut StdRng::seed_from_u64(42));
    let b = render(&config, &world, &mut StdRng::seed_from_u64(42));
    assert_eq!(a.len(), 40 * 22 * 3);
    assert_eq!(a, b);
    assert!(a.iter().all(|&c| c <= 254));
}

#[test]
fn default_config_height() {
    let config = RenderConfig { image_width: 400, aspect_w: 16, aspect_h: 9, samples_per_pixel: 100, max_depth: 50 };
    assert_eq!(config.image_height(), 225);
}

#[test]
fn gamma_and_clamp() {
    assert_eq!(to_byte(0, 1), 0);
    // average 0.25 -> sqrt 0.5 -> 127
    assert_eq!(to_byte(4 * 1024, 4), 127);
    // full intensity is clamped to 0.999 -> 254
    assert_eq!(to_byte(100 * ONE, 100), 254);
}

#[test]
fn viewport_coordinates() {
    assert_eq!(viewport_coord(0, 0, 400), 0);
    assert_eq!(viewport_coord(399, 0, 400), ONE);
    assert_eq!(viewport_coord(1, 2048, 3), 3072);
}

#[test]
fn camera_rays() {
    let cam = Camera::new(16, 9);
    assert_eq!(cam.horizontal, v(14563, 0, 0));
    assert_eq!(cam.vertical, v(0, 2 * ONE, 0));
    let r = cam.get_ray(ONE / 2, ONE / 2);
    assert_eq!(r.origin, v(0, 0, 0));
    assert_eq!(r.direction, v(0, 0, -ONE));
    let corner = cam.get_ray(0, 0);
    assert_eq!(corner.direction, v(-7281, -ONE, -ONE));
}

#[test]
fn integer_square_roots() {
    assert_eq!(isqrt(0), 0);
    assert_eq!(isqrt(1), 1);
    assert_eq!(isqrt(15), 3);
    assert_eq!(isqrt(16), 4);
    assert_eq!(isqrt(1 << 100), 1 << 50);
}

#[test]
fn unit_vectors() {
    assert_eq!(v(0, 0, 5).unit_vector(), v(0, 0, ONE));
    assert_eq!(v(-3, 0, 4).unit_vector(), v(-2458, 0, 3276));
    assert!(v(0, 0, 0).near_zero());
    assert!(!v(0, 1, 0).near_zero());
}

#[test]
fn metal_fuzz_is_capped_at_one() {
    assert_eq!(Metal::new(v(1, 2, 3), 2 * ONE).fuzz, ONE);
    assert_eq!(Metal::new(v(1, 2, 3), 1229).fuzz, 1229);
    // below zero the value is kept as given
    assert_eq!(Metal::new(v(1, 2, 3), -100).fuzz, -100);
    assert_eq!(Lambertian::new(v(1, 2, 3)).albedo, v(1, 2, 3));
}

#[test]
fn lambertian_scatter_and_fallback() {
    let l = Lambertian::new(v(2048, 2048, 2048));
    let mut world = HittableList::new();
    world.add(Sphere::new(v(0, -ONE, 0), ONE, MaterialKind::Lambertian(l)));
    let r_in = Ray::new(v(0, ONE, 0), v(0, -ONE, 0));
    let rec = world.hit(&r_in, 4, i64::MAX).expect("a hit");
    let (att, out) = l.scatter_with(&rec, &v(100, 0, 0)).expect("scatters");
    assert_eq!(att, v(2048, 2048, 2048));
    assert_eq!(out.direction, v(ONE, ONE, 0));
    // a sample straight against the normal cancels it: fall back to the normal
    let (_, back) = l.scatter_with(&rec, &v(0, -100, 0)).expect("scatters");
    assert_eq!(back.direction, v(0, ONE, 0));
    let mut rng = StdRng::seed_from_u64(5);
    let (_, any) = l.scatter(&r_in, &rec, &mut rng).expect("always scatters");
    assert_eq!(any.origin, rec.p);
}

#[test]
fn random_points_lie_in_unit_ball_and_vary() {
    let mut rng = StdRng::seed_from_u64(11);
    let mut seen = Vec::new();
    for _ in 0..50 {
        let p = random_in_unit_sphere(&mut rng);
        let l = p.length_squared();
        assert!(l > 0 && l < (ONE as i128) * (ONE as i128));
        seen.push(p);
        let p2 = Vec3::random_in_unit_sphere(&mut rng);
        assert!(p2.length_squared() < (ONE as i128) * (ONE as i128));
    }
    seen.sort_by_key(|p| (p.x, p.y, p.z));
    seen.dedup();
    assert!(seen.len() > 40);
    let f: Vec<i64> = (0..20).map(|_| random_fraction(&mut rng)).collect();
    assert!(f.iter().all(|&x| (0..ONE).contains(&x)));
    assert!(f.iter().any(|&x| x != f[0]));
}

#[test]
fn length_and_cross() {
    assert_eq!(v(3 * ONE, 0, 4 * ONE).length(), 5 * ONE);
    assert_eq!(v(0, 0, 0).length(), 0);
    assert_eq!(v(ONE, 0, 0).cross(&v(0, ONE, 0)), v(0, 0, ONE));
    assert_eq!(v(0, ONE, 0).cross(&v(ONE, 0, 0)), v(0, 0, -ONE));
    assert_eq!(v(2048, 0, 0).cross(&v(0, 2048, 0)), v(0, 0, 1024));
}

#[test]
fn random_components_in_range() {
    let mut rng = StdRng::seed_from_u64(13);
    let mut xs = Vec::new();
    for _ in 0..30 {
        let p = random_in_range(&mut rng, -5, 5);
        for c in [p.x, p.y, p.z] {
            assert!((-5..5).contains(&c));
        }
        xs.push(p.x);
    }
    assert!(xs.iter().any(|&x| x != xs[0]));
}
