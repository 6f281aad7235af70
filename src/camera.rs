use vstd::prelude::*;
use crate::ray::{Ray, WORLD};
use crate::vec3::{Point3, Vec3, ONE, fmul};

verus! {

/// Widest aspect ratio (width over height) that the scene box carries.
pub const MAX_ASPECT: i64 = 1024;

/// A pinhole camera at the origin looking down `-z`, with a viewport two
/// units high at focal length one.
#[derive(Clone, Copy, PartialEq, Eq, Structural, Debug)]
pub struct Camera {
    pub origin: Point3,
    pub lower_left_corner: Point3,
    pub horizontal: Vec3,
    pub vertical: Vec3,
}

/// Viewport width for an aspect ratio of `w / h`.
pub open spec fn viewport_width(w: int, h: int) -> int {
    (2 * ONE * w) / h
}

/// The camera for an aspect ratio of `w / h`.
pub open spec fn camera_for(w: int, h: int) -> Camera {
    let vw = viewport_width(w, h);
    Camera {
        origin: Vec3 { x: 0, y: 0, z: 0 },
        lower_left_corner: Vec3 { x: (-(vw / 2)) as i64, y: (-ONE) as i64, z: (-ONE) as i64 },
        horizontal: Vec3 { x: vw as i64, y: 0, z: 0 },
        vertical: Vec3 { x: 0, y: (2 * ONE) as i64, z: 0 },
    }
}

/// The ray through the viewport point at fixed-point `(u, v)`.
pub open spec fn ray_through(c: Camera, u: int, v: int) -> Ray {
    Ray {
        origin: c.origin,
        direction: Vec3 {
            x: (c.lower_left_corner.x + fmul(u, c.horizontal.x as int)) as i64,
            y: (c.lower_left_corner.y + fmul(v, c.vertical.y as int)) as i64,
            z: c.lower_left_corner.z,
        },
    }
}

impl Camera {
    pub open spec fn wf(self) -> bool {
        &&& self.origin == Vec3 { x: 0, y: 0, z: 0 }
        &&& self.vertical == Vec3 { x: 0, y: (2 * ONE) as i64, z: 0 }
        &&& self.horizontal.y == 0 && self.horizontal.z == 0
        &&& 0 <= self.horizontal.x <= 2 * ONE * MAX_ASPECT
        &&& self.lower_left_corner == Vec3 { x: (-(self.horizontal.x / 2)) as i64, y: (-ONE) as i64, z: (-ONE) as i64 }
    }

    /// The camera for an aspect ratio of `aspect_w / aspect_h`.
    pub fn new(aspect_w: i64, aspect_h: i64) -> (c: Camera)
        requires
            0 < aspect_h,
            0 < aspect_w <= MAX_ASPECT * aspect_h,
        ensures
            c.wf(),
            c == camera_for(aspect_w as int, aspect_h as int),
    {
        let vh: i64 = 2 * ONE;
        assert(0 <= (2 * 4096 * (aspect_w as int)) / (aspect_h as int) <= 2 * 4096 * 1024) by (nonlinear_arith)
            requires 0 < aspect_h, 0 < aspect_w <= 1024 * aspect_h;
        let vw: i64 = ((8192 * aspect_w as i128) / aspect_h as i128) as i64;
        Camera {
            origin: Vec3::new(0, 0, 0),
            horizontal: Vec3::new(vw, 0, 0),
            vertical: Vec3::new(0, vh, 0),
            lower_left_corner: Vec3::new(-(vw / 2), -ONE, -ONE),
        }
    }

    /// The ray through the viewport point at fixed-point `(u, v)`; `(0, 0)`
    /// is the lower left corner and `(1, 1)` the upper right.
    pub fn get_ray(&self, u: i64, v: i64) -> (r: Ray)
        requires
            self.wf(),
            0 <= u <= 2 * ONE,
            0 <= v <= 2 * ONE,
        ensures
            r.wf(),
            r == ray_through(*self, u as int, v as int),
    {
        let hx = self.horizontal.x as i128;
        assert(0 <= ((u as int) * (hx as int)) / 4096 <= 2 * 2 * 4096 * 1024) by (nonlinear_arith)
            requires 0 <= u <= 2 * 4096, 0 <= hx <= 2 * 4096 * 1024;
        assert(0 <= ((v as int) * (2 * 4096)) / 4096 <= 4 * 4096) by (nonlinear_arith)
            requires 0 <= v <= 2 * 4096;
        let dx = self.lower_left_corner.x + ((u as i128 * hx) / ONE as i128) as i64;
        let dy = self.lower_left_corner.y + ((v as i128 * self.vertical.y as i128) / ONE as i128) as i64;
        Ray::new(self.origin, Vec3::new(dx, dy, self.lower_left_corner.z))
    }
}

} // verus!
