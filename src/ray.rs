use vstd::prelude::*;
use crate::vec3::{Vec3, Point3, BOUND, within, is_zero, fmul};

verus! {

/// Largest raw magnitude of a coordinate in the scene (and of a ray direction).
pub const WORLD: i64 = 0x800_0000;

#[derive(Clone, Copy, PartialEq, Eq, Structural, Debug)]
pub struct Ray {
    pub origin: Point3,
    pub direction: Vec3,
}

proof fn lemma_step_bound(t: int, c: int)
    requires
        -BOUND <= t <= BOUND,
        -WORLD <= c <= WORLD,
    ensures
        -0x800_0000_0000 <= fmul(t, c) <= 0x800_0000_0000,
{
    let b = BOUND as int;
    let w = WORLD as int;
    assert(-b * w <= t * c <= b * w) by (nonlinear_arith)
        requires -b <= t <= b, -w <= c <= w;
    assert(-0x800_0000_0000 <= (t * c) / 4096 <= 0x800_0000_0000) by (nonlinear_arith)
        requires -b * w <= t * c <= b * w, b == 0x1000_0000, w == 0x800_0000;
}

impl Ray {
    /// Origin inside the scene box; a non-zero direction of bounded size.
    pub open spec fn wf(self) -> bool {
        within(self.origin, WORLD as int) && within(self.direction, WORLD as int)
            && !is_zero(self.direction)
    }

    pub fn new(origin: Point3, direction: Vec3) -> (r: Ray)
        ensures
            r == (Ray { origin, direction }),
    {
        Ray { origin, direction }
    }

    /// The point `origin + t * direction`, for a fixed-point `t`.
    pub fn at(&self, t: i64) -> (r: Point3)
        requires
            self.wf(),
            -BOUND <= t <= BOUND,
        ensures
            r.x == self.origin.x + fmul(t as int, self.direction.x as int),
            r.y == self.origin.y + fmul(t as int, self.direction.y as int),
            r.z == self.origin.z + fmul(t as int, self.direction.z as int),
    {
        let d = self.direction.scale(t);
        proof {
            lemma_step_bound(t as int, self.direction.x as int);
            lemma_step_bound(t as int, self.direction.y as int);
            lemma_step_bound(t as int, self.direction.z as int);
        }
        Vec3 { x: self.origin.x + d.x, y: self.origin.y + d.y, z: self.origin.z + d.z }
    }
}

} // verus!
