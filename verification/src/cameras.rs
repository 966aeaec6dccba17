//! The camera: maps screen coordinates to world-space rays.

use crate::fixed::{iabs, lemma_mul_fx_bound, mul_fx, COORD_LIMIT, UV_LIMIT, VEC_LIMIT};
use crate::ray::Ray;
use crate::vec3::{bounded, dot3, dot_wide, mul_fx_i64, unit_spec, Vec3};
use vstd::prelude::*;

verus! {

/// A rectangular image plane in world space, viewed from a fixed origin.
#[derive(Debug, Clone, Copy, PartialEq, Eq, Structural)]
pub struct SimpleCamera {
    pub lower_left_corner: Vec3,
    pub horizontal: Vec3,
    pub vertical: Vec3,
    pub origin: Vec3,
}

/// All four defining vectors lie within the scene coordinate range.
pub open spec fn cam_wf(c: SimpleCamera) -> bool {
    &&& bounded(c.lower_left_corner, COORD_LIMIT as int)
    &&& bounded(c.horizontal, COORD_LIMIT as int)
    &&& bounded(c.vertical, COORD_LIMIT as int)
    &&& bounded(c.origin, COORD_LIMIT as int)
}

/// One component of the unnormalized ray direction for coordinates `(u, v)`.
pub open spec fn plane_comp(llc: int, u: int, h: int, v: int, w: int) -> int {
    llc + mul_fx(u, h) + mul_fx(v, w)
}

/// The unnormalized direction through the image plane at `(u, v)`.
pub open spec fn plane_dir(c: SimpleCamera, u: int, v: int) -> Vec3 {
    Vec3(
        plane_comp(c.lower_left_corner.0 as int, u, c.horizontal.0 as int, v, c.vertical.0 as int)
            as i64,
        plane_comp(c.lower_left_corner.1 as int, u, c.horizontal.1 as int, v, c.vertical.1 as int)
            as i64,
        plane_comp(c.lower_left_corner.2 as int, u, c.horizontal.2 as int, v, c.vertical.2 as int)
            as i64,
    )
}

/// The ray produced for `(u, v)`: fixed origin, normalized plane direction.
/// A degenerate zero-length plane direction yields the zero direction.
pub open spec fn get_ray_spec(c: SimpleCamera, u: int, v: int) -> Ray {
    let w = plane_dir(c, u, v);
    if dot3(w, w) > 0 {
        Ray { origin: c.origin, direction: unit_spec(w) }
    } else {
        Ray { origin: c.origin, direction: Vec3(0i64, 0i64, 0i64) }
    }
}

impl SimpleCamera {
    /// Tests `cam_wf` at runtime, for callers outside verified code.
    pub fn in_range(&self) -> (b: bool)
        ensures
            b == cam_wf(*self),
    {
        crate::vec3::in_box(&self.lower_left_corner, COORD_LIMIT) && crate::vec3::in_box(
            &self.horizontal,
            COORD_LIMIT,
        ) && crate::vec3::in_box(&self.vertical, COORD_LIMIT) && crate::vec3::in_box(
            &self.origin,
            COORD_LIMIT,
        )
    }

    /// The world-space ray through screen coordinates `(u, v)`, which are
    /// stored reals, conventionally in `[0, 1]`; values outside extrapolate
    /// the image plane.  The result depends on the camera, `u` and `v` alone.
    pub fn get_ray(&self, u: i64, v: i64) -> (r: Ray)
        requires
            cam_wf(*self),
            iabs(u as int) <= UV_LIMIT as int,
            iabs(v as int) <= UV_LIMIT as int,
        ensures
            r == get_ray_spec(*self, u as int, v as int),
            r.origin == self.origin,
    {
        proof {
            lemma_plane_bounds(*self, u as int, v as int);
        }
        let w = Vec3(
            self.lower_left_corner.0 + mul_fx_i64(u, self.horizontal.0) + mul_fx_i64(
                v,
                self.vertical.0,
            ),
            self.lower_left_corner.1 + mul_fx_i64(u, self.horizontal.1) + mul_fx_i64(
                v,
                self.vertical.1,
            ),
            self.lower_left_corner.2 + mul_fx_i64(u, self.horizontal.2) + mul_fx_i64(
                v,
                self.vertical.2,
            ),
        );
        let lsq: i128 = dot_wide(&w, &w);
        if lsq > 0 {
            Ray { origin: self.origin, direction: w.unit_vector() }
        } else {
            Ray { origin: self.origin, direction: Vec3(0, 0, 0) }
        }
    }
}

/// For in-range coordinates the plane direction fits comfortably in range.
proof fn lemma_plane_bounds(c: SimpleCamera, u: int, v: int)
    requires
        cam_wf(c),
        iabs(u) <= UV_LIMIT as int,
        iabs(v) <= UV_LIMIT as int,
    ensures
        iabs(mul_fx(u, c.horizontal.0 as int)) <= 100_000_000_000_000,
        iabs(mul_fx(u, c.horizontal.1 as int)) <= 100_000_000_000_000,
        iabs(mul_fx(u, c.horizontal.2 as int)) <= 100_000_000_000_000,
        iabs(mul_fx(v, c.vertical.0 as int)) <= 100_000_000_000_000,
        iabs(mul_fx(v, c.vertical.1 as int)) <= 100_000_000_000_000,
        iabs(mul_fx(v, c.vertical.2 as int)) <= 100_000_000_000_000,
        bounded(plane_dir(c, u, v), VEC_LIMIT as int),
{
    lemma_mul_fx_bound(u, c.horizontal.0 as int, UV_LIMIT as int, COORD_LIMIT as int);
    lemma_mul_fx_bound(u, c.horizontal.1 as int, UV_LIMIT as int, COORD_LIMIT as int);
    lemma_mul_fx_bound(u, c.horizontal.2 as int, UV_LIMIT as int, COORD_LIMIT as int);
    lemma_mul_fx_bound(v, c.vertical.0 as int, UV_LIMIT as int, COORD_LIMIT as int);
    lemma_mul_fx_bound(v, c.vertical.1 as int, UV_LIMIT as int, COORD_LIMIT as int);
    lemma_mul_fx_bound(v, c.vertical.2 as int, UV_LIMIT as int, COORD_LIMIT as int);
}

} // verus!
