use vstd::prelude::*;
use crate::material::MaterialKind;
use crate::ray::{Ray, WORLD};
use crate::material::unit_of;
use crate::vec3::{
    Point3, Vec3, ONE, BOUND, within, is_zero, is_root, dot_spec, root, vsub, vneg, isqrt, div_floor,
};

verus! {

/// What an intersection test reports: where, at which ray parameter, with
/// which surface normal (facing the incoming ray) and material.
#[derive(Clone, Copy, PartialEq, Eq, Structural, Debug)]
pub struct HitRecord {
    pub p: Point3,
    pub normal: Vec3,
    pub t: i64,
    pub front_face: bool,
    pub material: MaterialKind,
}

impl HitRecord {
    pub open spec fn wf(self) -> bool {
        within(self.p, WORLD as int) && within(self.normal, ONE as int) && !is_zero(self.normal)
            && self.material.wf()
    }
}

/// A ball of the scene, with the material of its surface.
#[derive(Clone, Copy, PartialEq, Eq, Structural, Debug)]
pub struct Sphere {
    pub center: Point3,
    pub radius: i64,
    pub material: MaterialKind,
}

pub open spec fn oc_of(s: Sphere, r: Ray) -> Vec3 {
    vsub(r.origin, s.center)
}

pub open spec fn quad_a(r: Ray) -> int {
    dot_spec(r.direction, r.direction)
}

pub open spec fn half_b(s: Sphere, r: Ray) -> int {
    dot_spec(oc_of(s, r), r.direction)
}

pub open spec fn quad_c(s: Sphere, r: Ray) -> int {
    dot_spec(oc_of(s, r), oc_of(s, r)) - s.radius * s.radius
}

/// A quarter of the discriminant of `|origin + t d - center|^2 = radius^2`.
pub open spec fn discriminant(s: Sphere, r: Ray) -> int {
    half_b(s, r) * half_b(s, r) - quad_a(r) * quad_c(s, r)
}

/// The smaller root, as a fixed-point ray parameter.
pub open spec fn near_root(s: Sphere, r: Ray) -> int {
    ((-half_b(s, r) - root(discriminant(s, r))) * ONE) / quad_a(r)
}

/// The larger root, as a fixed-point ray parameter.
pub open spec fn far_root(s: Sphere, r: Ray) -> int {
    ((-half_b(s, r) + root(discriminant(s, r))) * ONE) / quad_a(r)
}

/// The root that a hit uses: the smaller one inside `(t_min, t_max)`.
pub open spec fn pick_t(s: Sphere, r: Ray, t_min: int, t_max: int) -> Option<int> {
    if discriminant(s, r) < 0 {
        None
    } else if t_min < near_root(s, r) < t_max {
        Some(near_root(s, r))
    } else if t_min < far_root(s, r) < t_max {
        Some(far_root(s, r))
    } else {
        None
    }
}

pub open spec fn coord_at(o: i64, d: i64, t: int) -> int {
    o + (t * d) / (ONE as int)
}

pub open spec fn in_world(c: int) -> bool {
    -WORLD <= c <= WORLD
}

/// The record of a hit at parameter `t`, if its point lies in the scene box
/// and off the center.
pub open spec fn record_at(s: Sphere, r: Ray, t: int) -> Option<HitRecord> {
    let px = coord_at(r.origin.x, r.direction.x, t);
    let py = coord_at(r.origin.y, r.direction.y, t);
    let pz = coord_at(r.origin.z, r.direction.z, t);
    if !(in_world(px) && in_world(py) && in_world(pz)) {
        None
    } else {
        let p = Vec3 { x: px as i64, y: py as i64, z: pz as i64 };
        let outward = vsub(p, s.center);
        if is_zero(outward) {
            None
        } else {
            let n = unit_of(outward);
            let front = dot_spec(r.direction, outward) < 0;
            Some(HitRecord {
                p,
                normal: if front { n } else { vneg(n) },
                t: t as i64,
                front_face: front,
                material: s.material,
            })
        }
    }
}

pub open spec fn hit_spec(s: Sphere, r: Ray, t_min: int, t_max: int) -> Option<HitRecord> {
    match pick_t(s, r, t_min, t_max) {
        Some(t) => record_at(s, r, t),
        None => None,
    }
}

/// One coordinate of `origin + t * direction`, with a wide `t`.
fn coord(o: i64, d: i64, t: i128) -> (c: i128)
    requires
        -WORLD <= o <= WORLD,
        -WORLD <= d <= WORLD,
        -0x1_0000_0000_0000_0000_0000 <= t <= 0x1_0000_0000_0000_0000_0000,
    ensures
        c == coord_at(o, d, t as int),
{
    let w = WORLD as i128;
    assert(-0x1_0000_0000_0000_0000_0000 * w <= t * (d as i128) <= 0x1_0000_0000_0000_0000_0000 * w)
        by (nonlinear_arith)
        requires -0x1_0000_0000_0000_0000_0000 <= t <= 0x1_0000_0000_0000_0000_0000, -w <= d <= w, w == 0x800_0000;
    let q = div_floor(t * (d as i128), ONE as i128);
    assert(-0x1_0000_0000_0000_0000_0000 * w <= q <= 0x1_0000_0000_0000_0000_0000 * w)
        by (nonlinear_arith)
        requires q == (t * d) / 4096, -0x1_0000_0000_0000_0000_0000 * w <= t * d <= 0x1_0000_0000_0000_0000_0000 * w, w == 0x800_0000;
    o as i128 + q
}

impl Sphere {
    pub open spec fn wf(self) -> bool {
        within(self.center, WORLD as int) && 0 < self.radius <= WORLD && self.material.wf()
    }

    pub fn new(center: Point3, radius: i64, material: MaterialKind) -> (r: Sphere)
        ensures
            r == (Sphere { center, radius, material }),
    {
        Sphere { center, radius, material }
    }

    fn record_at(&self, r: &Ray, t: i128) -> (res: Option<HitRecord>)
        requires
            self.wf(),
            r.wf(),
            i64::MIN < t < i64::MAX,
        ensures
            res == record_at(*self, *r, t as int),
            res matches Some(h) ==> h.wf(),
    {
        let px = coord(r.origin.x, r.direction.x, t);
        let py = coord(r.origin.y, r.direction.y, t);
        let pz = coord(r.origin.z, r.direction.z, t);
        let w = WORLD as i128;
        if !(-w <= px && px <= w && -w <= py && py <= w && -w <= pz && pz <= w) {
            return None;
        }
        let p = Vec3::new(px as i64, py as i64, pz as i64);
        let outward = p.sub(&self.center);
        if outward.near_zero() {
            return None;
        }
        let n = outward.unit_vector();
        let front = r.direction.dot(&outward) < 0;
        let normal = if front { n } else { n.neg() };
        Some(HitRecord { p, normal, t: t as i64, front_face: front, material: self.material })
    }

    /// The nearest intersection with parameter strictly inside `(t_min, t_max)`.
    pub fn hit(&self, r: &Ray, t_min: i64, t_max: i64) -> (res: Option<HitRecord>)
        requires
            self.wf(),
            r.wf(),
        ensures
            res == hit_spec(*self, *r, t_min as int, t_max as int),
            res matches Some(h) ==> h.wf() && t_min < h.t < t_max,
    {
        let oc = r.origin.sub(&self.center);
        let a = r.direction.length_squared();
        let hb = oc.dot(&r.direction);
        let rr = self.radius as i128;
        assert(0 < rr * rr <= 0x800_0000 * 0x800_0000) by (nonlinear_arith) requires 0 < rr <= 0x800_0000;
        let c = oc.length_squared() - rr * rr;
        proof {
            let b = BOUND as int;
            let w = WORLD as int;
            let (ox, oy, oz) = (oc.x as int, oc.y as int, oc.z as int);
            let (dx, dy, dz) = (r.direction.x as int, r.direction.y as int, r.direction.z as int);
            assert(-3 * b * w <= hb <= 3 * b * w) by (nonlinear_arith)
                requires hb == ox * dx + oy * dy + oz * dz, -b <= ox <= b, -b <= oy <= b, -b <= oz <= b,
                    -w <= dx <= w, -w <= dy <= w, -w <= dz <= w;
            assert(a <= 3 * w * w) by (nonlinear_arith)
                requires a == dx * dx + dy * dy + dz * dz, -w <= dx <= w, -w <= dy <= w, -w <= dz <= w;
            assert(0 <= hb * hb <= 9 * b * b * w * w) by (nonlinear_arith)
                requires -3 * b * w <= hb <= 3 * b * w, b > 0, w > 0;
            assert(-3 * w * w * w * w <= a * c <= 9 * b * b * w * w) by (nonlinear_arith)
                requires 0 <= a <= 3 * w * w, -w * w <= c <= 3 * b * b, b == 2 * w, w > 0;
        }
        let disc = hb * hb - a * c;
        if disc < 0 {
            return None;
        }
        let sq = isqrt(disc as u128) as i128;
        let one = ONE as i128;
        let near = div_floor((-hb - sq) * one, a);
        proof {
            let (hi, si, ai, ni) = (hb as int, sq as int, a as int, near as int);
            vstd::arithmetic::div_mod::lemma_div_is_ordered((-hi - si) * 4096, (-hi + si) * 4096, ai);
            assert(-0x1_0000_0000_0000_0000_0000 <= ni <= 0x1_0000_0000_0000_0000_0000) by (nonlinear_arith)
                requires ni == ((-hi - si) * 4096) / ai, ai >= 1,
                    -0x300_0000_0000_0000 <= hi <= 0x300_0000_0000_0000, 0 <= si <= 0x4000_0000_0000_0000;
        }
        let (lo, hi) = (t_min as i128, t_max as i128);
        if lo < near && near < hi {
            return self.record_at(r, near);
        }
        let far = div_floor((-hb + sq) * one, a);
        if lo < far && far < hi {
            self.record_at(r, far)
        } else {
            None
        }
    }
}

/// A ray aimed at a sphere's center, along a direction of unit length, meets
/// the sphere first at the distance to the center less the radius.
pub proof fn lemma_hit_through_center(s: Sphere, r: Ray, k: int, t_min: int, t_max: int)
    requires
        s.wf(),
        r.wf(),
        dot_spec(r.direction, r.direction) == ONE * ONE,
        k >= 0,
        s.center.x == r.origin.x + k * r.direction.x,
        s.center.y == r.origin.y + k * r.direction.y,
        s.center.z == r.origin.z + k * r.direction.z,
        t_min < k * ONE - s.radius < t_max,
        i64::MIN <= t_min,
        t_max <= i64::MAX,
    ensures
        pick_t(s, r, t_min, t_max) == Some(k * ONE - s.radius),
        hit_spec(s, r, t_min, t_max) matches Some(h) ==> h.t == k * ONE - s.radius,
{
    let d = r.direction;
    let oc = oc_of(s, r);
    let one = ONE as int;
    let rad = s.radius as int;
    let (dx, dy, dz) = (d.x as int, d.y as int, d.z as int);
    assert(oc.x == -(k * dx) && oc.y == -(k * dy) && oc.z == -(k * dz));
    assert((-(k * dx)) * dx + (-(k * dy)) * dy + (-(k * dz)) * dz == -k * (dx * dx + dy * dy + dz * dz))
        by (nonlinear_arith);
    assert(half_b(s, r) == -k * (one * one));
    assert((-(k * dx)) * (-(k * dx)) + (-(k * dy)) * (-(k * dy)) + (-(k * dz)) * (-(k * dz))
        == (k * k) * (dx * dx + dy * dy + dz * dz)) by (nonlinear_arith);
    assert(dot_spec(oc, oc) == (k * k) * (one * one));
    let disc = discriminant(s, r);
    let hb = half_b(s, r);
    let qa = quad_a(r);
    let qc = quad_c(s, r);
    assert(qc == (k * k) * (one * one) - rad * rad);
    assert(disc == hb * hb - qa * qc);
    let pp = one * one;
    let kk = k * k;
    let r2 = rad * rad;
    assert(hb * hb == kk * (pp * pp)) by (nonlinear_arith) requires hb == -k * pp, kk == k * k;
    assert(qa * qc == pp * (kk * pp) - pp * r2) by (nonlinear_arith) requires qa == pp, qc == kk * pp - r2;
    assert(pp * (kk * pp) == kk * (pp * pp)) by (nonlinear_arith);
    assert((one * rad) * (one * rad) == pp * r2) by (nonlinear_arith) requires pp == one * one, r2 == rad * rad;
    assert(disc == (one * rad) * (one * rad));
    assert(0 <= (one * rad) * (one * rad) <= disc < (one * rad + 1) * (one * rad + 1)) by (nonlinear_arith)
        requires disc == (one * rad) * (one * rad), one * rad >= 0;
    crate::vec3::lemma_root_unique(disc, one * rad);
    assert(((-hb - one * rad) * one) / qa == k * one - rad) by (nonlinear_arith)
        requires hb == -k * (one * one), qa == one * one, one == 4096;
    match record_at(s, r, k * one - rad) {
        Some(h) => assert(h.t == k * one - rad),
        None => {},
    }
}

/// A ray whose closest approach to the center lies beyond the radius misses
/// the sphere for every parameter range: with `a = |d|^2`, the squared
/// closest distance `|oc|^2 - (oc . d)^2 / a` exceeds `radius^2`.
pub proof fn lemma_miss_beyond_radius(s: Sphere, r: Ray, t_min: int, t_max: int)
    requires
        s.wf(),
        r.wf(),
        quad_a(r) * dot_spec(oc_of(s, r), oc_of(s, r)) - half_b(s, r) * half_b(s, r)
            > quad_a(r) * (s.radius * s.radius),
    ensures
        discriminant(s, r) < 0,
        hit_spec(s, r, t_min, t_max) is None,
{
    let a = quad_a(r);
    let hb = half_b(s, r);
    let o = dot_spec(oc_of(s, r), oc_of(s, r));
    let rr = s.radius * s.radius;
    assert(hb * hb - a * (o - rr) < 0) by (nonlinear_arith)
        requires a * o - hb * hb > a * rr;
}

/// Narrowing the upper bound keeps a hit below the new bound and drops the
/// others: no hit appears that the wider range did not report.
pub proof fn lemma_narrow(s: Sphere, r: Ray, t_min: int, t_max: int, t_near: int)
    requires
        s.wf(),
        r.wf(),
        t_near <= t_max,
        i64::MIN <= t_min,
        t_max <= i64::MAX,
    ensures
        hit_spec(s, r, t_min, t_near) == match hit_spec(s, r, t_min, t_max) {
            Some(h) => if h.t < t_near { Some(h) } else { None },
            None => None,
        },
{
    let a = quad_a(r);
    let d = r.direction;
    assert(a > 0) by (nonlinear_arith)
        requires a == d.x * d.x + d.y * d.y + d.z * d.z, !(d.x == 0 && d.y == 0 && d.z == 0);
    if discriminant(s, r) >= 0 {
        let hb = half_b(s, r);
        let sq = root(discriminant(s, r));
        crate::vec3::lemma_root_exists(discriminant(s, r));
        vstd::arithmetic::div_mod::lemma_div_is_ordered((-hb - sq) * 4096, (-hb + sq) * 4096, a);
        match pick_t(s, r, t_min, t_max) {
            Some(t) => {
                match record_at(s, r, t) {
                    Some(h) => assert(h.t == t),
                    None => {},
                }
            },
            None => {},
        }
    }
}

/// The scene: spheres in no particular order.
pub struct HittableList {
    pub objects: Vec<Sphere>,
}

/// No sphere of `objs` is hit within `(t_min, t_max)`.
pub open spec fn misses_all(objs: Seq<Sphere>, r: Ray, t_min: int, t_max: int) -> bool {
    forall|i: int| 0 <= i < objs.len() ==> hit_spec(#[trigger] objs[i], r, t_min, t_max) is None
}

/// `h` is a hit of some sphere of `objs`, and no sphere is hit nearer.
pub open spec fn nearest_hit(objs: Seq<Sphere>, r: Ray, t_min: int, t_max: int, h: HitRecord) -> bool {
    &&& exists|i: int| 0 <= i < objs.len() && hit_spec(#[trigger] objs[i], r, t_min, t_max) == Some(h)
    &&& forall|j: int| 0 <= j < objs.len() ==>
        (hit_spec(#[trigger] objs[j], r, t_min, t_max) matches Some(g) ==> h.t <= g.t)
}

impl HittableList {
    pub open spec fn wf(self) -> bool {
        forall|i: int| 0 <= i < self.objects@.len() ==> (#[trigger] self.objects@[i]).wf()
    }

    pub fn new() -> (r: HittableList)
        ensures
            r.objects@ == Seq::<Sphere>::empty(),
    {
        HittableList { objects: Vec::new() }
    }

    pub fn add(&mut self, object: Sphere)
        ensures
            final(self).objects@ == old(self).objects@.push(object),
    {
        self.objects.push(object);
    }

    /// The nearest hit over all spheres within `(t_min, t_max)`.
    pub fn hit(&self, r: &Ray, t_min: i64, t_max: i64) -> (res: Option<HitRecord>)
        requires
            self.wf(),
            r.wf(),
        ensures
            res is None <==> misses_all(self.objects@, *r, t_min as int, t_max as int),
            res matches Some(h) ==> nearest_hit(self.objects@, *r, t_min as int, t_max as int, h)
                && h.wf() && t_min < h.t < t_max,
    {
        let ghost objs = self.objects@;
        let mut closest = t_max;
        let mut found: Option<HitRecord> = None;
        let mut i: usize = 0;
        while i < self.objects.len()
            invariant
                self.wf(),
                r.wf(),
                objs == self.objects@,
                i <= objs.len(),
                closest <= t_max,
                found is None ==> closest == t_max && misses_all(objs.take(i as int), *r, t_min as int, t_max as int),
                found matches Some(h) ==> closest == h.t && h.wf() && t_min < h.t < t_max
                    && nearest_hit(objs.take(i as int), *r, t_min as int, t_max as int, h),
            decreases objs.len() - i,
        {
            let s = &self.objects[i];
            let h = s.hit(r, t_min, closest);
            proof {
                lemma_narrow(*s, *r, t_min as int, t_max as int, closest as int);
                assert(objs.take(i + 1) == objs.take(i as int).push(*s));
            }
            match h {
                Some(rec) => {
                    closest = rec.t;
                    found = Some(rec);
                    proof {
                        let prefix = objs.take(i + 1);
                        assert(prefix[i as int] == *s);
                        assert forall|j: int| 0 <= j < prefix.len() implies
                            (hit_spec(#[trigger] prefix[j], *r, t_min as int, t_max as int) matches Some(g) ==> rec.t <= g.t) by {
                            if j < i {
                                assert(prefix[j] == objs.take(i as int)[j]);
                            }
                        }
                    }
                },
                None => {
                    proof {
                        let prefix = objs.take(i + 1);
                        assert(prefix[i as int] == *s);
                        if found is Some {
                            let w = found->0;
                            let old_prefix = objs.take(i as int);
                            let k = choose|k: int| 0 <= k < old_prefix.len() && hit_spec(#[trigger] old_prefix[k], *r, t_min as int, t_max as int) == Some(w);
                            assert(prefix[k] == old_prefix[k]);
                            assert forall|j: int| 0 <= j < prefix.len() implies
                                (hit_spec(#[trigger] prefix[j], *r, t_min as int, t_max as int) matches Some(g) ==> w.t <= g.t) by {
                                if j < i {
                                    assert(prefix[j] == old_prefix[j]);
                                }
                            }
                        } else {
                            assert forall|j: int| 0 <= j < prefix.len() implies
                                hit_spec(#[trigger] prefix[j], *r, t_min as int, t_max as int) is None by {
                                if j < i {
                                    assert(prefix[j] == objs.take(i as int)[j]);
                                }
                            }
                        }
                    }
                },
            }
            i = i + 1;
        }
        assert(objs.take(objs.len() as int) == objs);
        found
    }
}

} // verus!
