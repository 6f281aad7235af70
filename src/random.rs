use vstd::prelude::*;
use rand::Rng;
use rand::rngs::StdRng;
use crate::vec3::{Vec3, ONE, dot_spec, within, is_zero};

verus! {

#[verifier::external_type_specification]
#[verifier::external_body]
pub struct ExStdRng(StdRng);

/// Relies on rand's `Rng::gen_range` on a half-open integer range: the value
/// lies in `[lo, hi)`; the range is checked non-empty, so `lo < hi`.
#[verifier::external_body]
fn draw(rng: &mut StdRng, lo: i64, hi: i64) -> (r: i64)
    requires
        lo < hi,
    ensures
        lo <= r < hi,
{
    rng.gen_range(lo..hi)
}

/// A point with each component drawn uniformly in `[min, max)`.
pub fn random_in_range(rng: &mut StdRng, min: i64, max: i64) -> (r: Vec3)
    requires
        min < max,
    ensures
        min <= r.x < max,
        min <= r.y < max,
        min <= r.z < max,
{
    let x = draw(rng, min, max);
    let y = draw(rng, min, max);
    let z = draw(rng, min, max);
    Vec3::new(x, y, z)
}

/// A uniform jitter in `[0, ONE)`, that is in `[0, 1)` in fixed point.
pub fn random_fraction(rng: &mut StdRng) -> (r: i64)
    ensures
        0 <= r < ONE,
{
    draw(rng, 0, ONE)
}

/// A point strictly inside the unit ball, other than its center.
pub open spec fn in_unit_ball(v: Vec3) -> bool {
    within(v, ONE as int) && !is_zero(v) && dot_spec(v, v) < ONE * ONE
}

/// Rejection attempts before the sampler settles for a fixed interior point.
pub const MAX_ATTEMPTS: u32 = 64;

/// Whether a candidate point lies strictly inside the unit ball, off center.
pub fn accept(p: &Vec3) -> (r: bool)
    requires
        within(*p, ONE as int),
    ensures
        r == in_unit_ball(*p),
{
    let l = p.length_squared();
    let one = ONE as i128;
    l > 0 && l < one * one
}

/// Rejection sampling: draw each component uniformly in `[-1, 1)` until the
/// point lies inside the unit ball. Each attempt succeeds with probability
/// about one half; should `MAX_ATTEMPTS` attempts all fail, the point
/// `(1/2, 0, 0)` is returned.
pub fn random_in_unit_sphere(rng: &mut StdRng) -> (r: Vec3)
    ensures
        in_unit_ball(r),
{
    let mut attempts: u32 = 0;
    while attempts < MAX_ATTEMPTS
        decreases MAX_ATTEMPTS - attempts,
    {
        let x = draw(rng, -ONE, ONE);
        let y = draw(rng, -ONE, ONE);
        let z = draw(rng, -ONE, ONE);
        let p = Vec3::new(x, y, z);
        if accept(&p) {
            return p;
        }
        attempts = attempts + 1;
    }
    let fallback = Vec3::new(ONE / 2, 0, 0);
    assert(dot_spec(fallback, fallback) == 2048 * 2048);
    fallback
}

impl Vec3 {
    pub fn random_in_unit_sphere(rng: &mut StdRng) -> (r: Vec3)
        ensures
            in_unit_ball(r),
    {
        random_in_unit_sphere(rng)
    }
}

} // verus!
