use vstd::prelude::*;
use rand::rngs::StdRng;
use crate::hittable::HitRecord;
use crate::random::{in_unit_ball, random_in_unit_sphere};
use crate::ray::Ray;
use crate::vec3::{
    Color, Vec3, ONE, within, is_zero, dot_spec, root, unit_spec, vadd, vsub, vscale, fmul,
};

verus! {

/// Every channel of a color lies in `[0, 1]`.
pub open spec fn unit_color(c: Color) -> bool {
    0 <= c.x <= ONE && 0 <= c.y <= ONE && 0 <= c.z <= ONE
}

/// Lowest fuzz that the fixed-point range carries.
pub const FUZZ_FLOOR: i64 = -0x100_0000;

/// How a surface answers an incoming ray: an attenuation and a scattered
/// ray, or absorption.
pub trait Material {
    spec fn wf_material(&self) -> bool;

    /// The outcome for a given random point of the unit ball.
    spec fn scatter_spec(&self, r_in: Ray, rec: HitRecord, sample: Vec3) -> Option<(Color, Ray)>;

    fn scatter(&self, r_in: &Ray, rec: &HitRecord, rng: &mut StdRng) -> (r: Option<(Color, Ray)>)
        requires
            self.wf_material(),
            r_in.wf(),
            rec.wf(),
        ensures
            exists|s: Vec3| in_unit_ball(s) && r == self.scatter_spec(*r_in, *rec, s),
            r matches Some((c, sc)) ==> unit_color(c) && sc.wf(),
    ;
}

/// The mirror image of `v` about the normal `n`: `v - 2 (v . n) n`.
pub open spec fn reflect_spec(v: Vec3, n: Vec3) -> Vec3 {
    vsub(v, vscale((2 * dot_spec(v, n)) / (ONE as int), n))
}

/// The direction of `v`, as `unit_vector` computes it.
pub open spec fn unit_of(v: Vec3) -> Vec3 {
    unit_spec(v, root(dot_spec(v, v)))
}

pub fn reflect(v: &Vec3, n: &Vec3) -> (r: Vec3)
    requires
        within(*v, ONE as int),
        within(*n, ONE as int),
    ensures
        r == reflect_spec(*v, *n),
        within(r, 7 * ONE as int),
{
    let d = v.dot(n);
    let ghost k = ONE as int;
    assert(-3 * k * k <= dot_spec(*v, *n) <= 3 * k * k) by (nonlinear_arith)
        requires -k <= v.x <= k, -k <= v.y <= k, -k <= v.z <= k,
            -k <= n.x <= k, -k <= n.y <= k, -k <= n.z <= k,
            dot_spec(*v, *n) == v.x * n.x + v.y * n.y + v.z * n.z;
    let f = crate::vec3::div_floor(2 * d, ONE as i128);
    assert(-6 * k <= f <= 6 * k) by (nonlinear_arith)
        requires f == (2 * d) / k, -3 * k * k <= d <= 3 * k * k, k == 4096;
    let s = n.scale(f as i64);
    proof {
        let fi = f as int;
        assert(forall|c: int| -k <= c <= k ==> -6 * k <= #[trigger] ((fi * c) / k) <= 6 * k) by {
            assert forall|c: int| -k <= c <= k implies -6 * k <= #[trigger] ((fi * c) / k) <= 6 * k by {
                assert(-6 * k <= (fi * c) / k <= 6 * k) by (nonlinear_arith)
                    requires -6 * k <= fi <= 6 * k, -k <= c <= k, k == 4096;
            }
        }
    }
    v.sub(&s)
}

/// A diffuse surface.
#[derive(Clone, Copy, PartialEq, Eq, Structural, Debug)]
pub struct Lambertian {
    pub albedo: Color,
}

impl Lambertian {
    pub fn new(albedo: Color) -> (r: Self)
        requires
            unit_color(albedo),
        ensures
            r.albedo == albedo,
    {
        Self { albedo }
    }

    /// Scatter about the normal towards `sample`, a point of the unit ball.
    pub fn scatter_with(&self, rec: &HitRecord, sample: &Vec3) -> (r: Option<(Color, Ray)>)
        requires
            unit_color(self.albedo),
            rec.wf(),
            in_unit_ball(*sample),
        ensures
            r == lambertian_spec(*self, *rec, *sample),
            r matches Some((c, sc)) ==> unit_color(c) && sc.wf(),
    {
        let u = sample.unit_vector();
        let mut direction = rec.normal.add(&u);
        if direction.near_zero() {
            direction = rec.normal;
        }
        Some((self.albedo, Ray::new(rec.p, direction)))
    }
}

pub open spec fn lambertian_spec(m: Lambertian, rec: HitRecord, sample: Vec3) -> Option<(Color, Ray)> {
    let d = vadd(rec.normal, unit_of(sample));
    Some((m.albedo, Ray { origin: rec.p, direction: if is_zero(d) { rec.normal } else { d } }))
}

/// A reflective surface; `fuzz` perturbs the mirror direction.
#[derive(Clone, Copy, PartialEq, Eq, Structural, Debug)]
pub struct Metal {
    pub albedo: Color,
    pub fuzz: i64,
}

impl Metal {
    /// Fuzz above one is lowered to one; lower values are kept as given.
    pub fn new(albedo: Color, fuzz: i64) -> (r: Self)
        requires
            unit_color(albedo),
            FUZZ_FLOOR <= fuzz,
        ensures
            r.albedo == albedo,
            r.fuzz == if fuzz < ONE { fuzz } else { ONE },
    {
        Self { albedo, fuzz: if fuzz < ONE { fuzz } else { ONE } }
    }

    pub open spec fn wf(self) -> bool {
        unit_color(self.albedo) && FUZZ_FLOOR <= self.fuzz <= ONE
    }

    /// Reflect the unit incident direction, perturb it by `fuzz * sample`, and
    /// scatter only when the result leaves the surface.
    pub fn scatter_with(&self, r_in: &Ray, rec: &HitRecord, sample: &Vec3) -> (r: Option<(Color, Ray)>)
        requires
            self.wf(),
            r_in.wf(),
            rec.wf(),
            in_unit_ball(*sample),
        ensures
            r == metal_spec(*self, *r_in, *rec, *sample),
            r matches Some((c, sc)) ==> unit_color(c) && sc.wf(),
    {
        let u = r_in.direction.unit_vector();
        let reflected = reflect(&u, &rec.normal);
        let jitter = sample.scale(self.fuzz);
        proof {
            let k = ONE as int;
            let f = self.fuzz as int;
            assert forall|c: int| -k <= c <= k implies -0x100_0000 <= #[trigger] ((f * c) / k) <= 0x100_0000 by {
                assert(-0x100_0000 <= (f * c) / k <= 0x100_0000) by (nonlinear_arith)
                    requires -0x100_0000 <= f <= k, -k <= c <= k, k == 4096;
            }
        }
        let direction = reflected.add(&jitter);
        let along = direction.dot(&rec.normal);
        assert(is_zero(direction) ==> along == 0) by (nonlinear_arith)
            requires along == direction.x * rec.normal.x + direction.y * rec.normal.y + direction.z * rec.normal.z;
        if along > 0 {
            Some((self.albedo, Ray::new(rec.p, direction)))
        } else {
            None
        }
    }
}

pub open spec fn metal_spec(m: Metal, r_in: Ray, rec: HitRecord, sample: Vec3) -> Option<(Color, Ray)> {
    let d = vadd(reflect_spec(unit_of(r_in.direction), rec.normal), vscale(m.fuzz as int, sample));
    if dot_spec(d, rec.normal) > 0 {
        Some((m.albedo, Ray { origin: rec.p, direction: d }))
    } else {
        None
    }
}

/// The materials that a scene can hold.
#[derive(Clone, Copy, PartialEq, Eq, Structural, Debug)]
pub enum MaterialKind {
    Lambertian(Lambertian),
    Metal(Metal),
}

impl MaterialKind {
    pub open spec fn wf(self) -> bool {
        match self {
            MaterialKind::Lambertian(l) => unit_color(l.albedo),
            MaterialKind::Metal(m) => m.wf(),
        }
    }

    pub open spec fn albedo(self) -> Color {
        match self {
            MaterialKind::Lambertian(l) => l.albedo,
            MaterialKind::Metal(m) => m.albedo,
        }
    }
}

impl Material for Lambertian {
    open spec fn wf_material(&self) -> bool {
        unit_color(self.albedo)
    }

    open spec fn scatter_spec(&self, r_in: Ray, rec: HitRecord, sample: Vec3) -> Option<(Color, Ray)> {
        lambertian_spec(*self, rec, sample)
    }

    fn scatter(&self, r_in: &Ray, rec: &HitRecord, rng: &mut StdRng) -> (r: Option<(Color, Ray)>) {
        let sample = random_in_unit_sphere(rng);
        self.scatter_with(rec, &sample)
    }
}

impl Material for Metal {
    open spec fn wf_material(&self) -> bool {
        self.wf()
    }

    open spec fn scatter_spec(&self, r_in: Ray, rec: HitRecord, sample: Vec3) -> Option<(Color, Ray)> {
        metal_spec(*self, r_in, rec, sample)
    }

    fn scatter(&self, r_in: &Ray, rec: &HitRecord, rng: &mut StdRng) -> (r: Option<(Color, Ray)>) {
        let sample = random_in_unit_sphere(rng);
        self.scatter_with(r_in, rec, &sample)
    }
}

impl Material for MaterialKind {
    open spec fn wf_material(&self) -> bool {
        self.wf()
    }

    open spec fn scatter_spec(&self, r_in: Ray, rec: HitRecord, sample: Vec3) -> Option<(Color, Ray)> {
        match *self {
            MaterialKind::Lambertian(l) => lambertian_spec(l, rec, sample),
            MaterialKind::Metal(m) => metal_spec(m, r_in, rec, sample),
        }
    }

    fn scatter(&self, r_in: &Ray, rec: &HitRecord, rng: &mut StdRng) -> (r: Option<(Color, Ray)>) {
        match self {
            MaterialKind::Lambertian(l) => l.scatter(r_in, rec, rng),
            MaterialKind::Metal(m) => m.scatter(r_in, rec, rng),
        }
    }
}

/// With no fuzz, a metal scatters along the exact mirror image of the unit
/// incident direction about the normal, and only when that image leaves the
/// surface; otherwise it absorbs the ray. The random point plays no part.
pub proof fn lemma_mirror_without_fuzz(m: Metal, r_in: Ray, rec: HitRecord, sample: Vec3)
    requires
        m.fuzz == 0,
    ensures
        metal_spec(m, r_in, rec, sample) == ({
            let d = reflect_spec(unit_of(r_in.direction), rec.normal);
            if dot_spec(d, rec.normal) > 0 {
                Some((m.albedo, Ray { origin: rec.p, direction: d }))
            } else {
                None
            }
        }),
{
    assert(fmul(0, sample.x as int) == 0 && fmul(0, sample.y as int) == 0 && fmul(0, sample.z as int) == 0);
    let d = reflect_spec(unit_of(r_in.direction), rec.normal);
    assert(vadd(d, vscale(0, sample)) == d);
}

} // verus!
