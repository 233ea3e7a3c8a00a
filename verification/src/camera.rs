//! The pinhole camera: maps normalised image-plane coordinates into
//! world-space rays.
//!
//! The horizontal and vertical vectors are expressed relative to the
//! camera position — each encodes both basis direction and offset —
//! and the lower-left corner and every generated ray keep exactly
//! that affine relationship.

use vstd::prelude::*;
use crate::num::FP_ONE;
use crate::num::div_t;
use crate::num::div_trunc;
use crate::num::lemma_div_t_bound;
use crate::num::lemma_div_t_mul_cancel;
use crate::num::lemma_mul_bound;
use crate::ray::Ray;
use crate::ray::ray_wf;
use crate::objects::WORLD_MAX;
use crate::vec3::Vec3;
use crate::vec3::V3;
use crate::vec3::v3_in;
use crate::vec3::v3_add;
use crate::vec3::v3_sub;
use crate::vec3::v3_div;
use crate::vec3::v3_scale;

verus! {

#[derive(Clone, Copy, Debug)]
pub struct Camera {
    pub pos: Vec3,
    pub focal_length: i64,
    pub viewport: (i64, i64),
    pub resolution: (u32, u32),
    pub samples_per_pixel: u32,
    pub max_bounces: u8,
}

/// The camera's fields stay within the world bounds, so ray
/// generation cannot overflow and generated rays are well-formed.
pub open spec fn camera_wf(c: Camera) -> bool {
    &&& v3_in(c.pos@, WORLD_MAX as int)
    &&& 1 <= c.focal_length <= WORLD_MAX
    &&& 1 <= c.viewport.0 <= WORLD_MAX
    &&& 1 <= c.viewport.1 <= WORLD_MAX
    &&& 1 <= c.resolution.0 <= 4096
    &&& 1 <= c.resolution.1 <= 4096
    &&& 1 <= c.samples_per_pixel <= 65536
}

/// `position + right * viewport_width`.
pub open spec fn cam_horizontal(c: Camera) -> V3 {
    V3 { x: c.pos@.x + c.viewport.0, y: c.pos@.y, z: c.pos@.z }
}

/// `position + up * viewport_height`.
pub open spec fn cam_vertical(c: Camera) -> V3 {
    V3 { x: c.pos@.x, y: c.pos@.y + c.viewport.1, z: c.pos@.z }
}

/// `position - horizontal/2 - vertical/2 - forward * focal_length`.
pub open spec fn cam_lower_left(c: Camera) -> V3 {
    v3_sub(
        v3_sub(
            v3_sub(c.pos@, v3_div(cam_horizontal(c), 2 * FP_ONE as int)),
            v3_div(cam_vertical(c), 2 * FP_ONE as int),
        ),
        V3 { x: 0, y: 0, z: c.focal_length as int },
    )
}

/// The direction of the ray through plane coordinates `(u, v)`:
/// `lower_left + horizontal * u + vertical * v - position`.
pub open spec fn cam_ray_dir(c: Camera, u: int, v: int) -> V3 {
    v3_sub(
        v3_add(
            v3_add(cam_lower_left(c), v3_scale(cam_horizontal(c), u)),
            v3_scale(cam_vertical(c), v),
        ),
        c.pos@,
    )
}

impl Camera {
    /// The default configuration: a 16:9 viewport of unit height at
    /// unit focal length, 800x450 pixels.
    pub fn new() -> (r: Camera)
        ensures
            camera_wf(r),
            r.pos@ == crate::vec3::v3_zero(),
            r.focal_length == FP_ONE,
            r.viewport.0 == div_t(16 * FP_ONE as int, 9),
            r.viewport.1 == FP_ONE,
            r.resolution == (800u32, 450u32),
            r.samples_per_pixel == 4,
            r.max_bounces == 4,
    {
        let image_width: u32 = 800;
        let image_height: u32 = image_width * 9 / 16;
        let viewport_height: i64 = FP_ONE;
        let viewport_width: i64 = div_trunc(16 * FP_ONE, 9);
        proof {
            crate::num::lemma_div_t_nonneg(16 * FP_ONE as int, 9);
        }
        Camera {
            pos: Vec3::zero(),
            focal_length: FP_ONE,
            viewport: (viewport_width, viewport_height),
            resolution: (image_width, image_height),
            samples_per_pixel: 4,
            max_bounces: 4,
        }
    }

    pub fn horizontal(&self) -> (r: Vec3)
        requires
            camera_wf(*self),
        ensures
            r@ == cam_horizontal(*self),
            v3_in(r@, 2 * WORLD_MAX as int),
    {
        let offset = Vec3::right().mul(self.viewport.0);
        proof {
            lemma_div_t_mul_cancel(self.viewport.0 as int, FP_ONE as int);
            assert((FP_ONE as int) * (self.viewport.0 as int) == (self.viewport.0 as int) * (
            FP_ONE as int)) by (nonlinear_arith);
        }
        self.pos.add(&offset)
    }

    pub fn vertical(&self) -> (r: Vec3)
        requires
            camera_wf(*self),
        ensures
            r@ == cam_vertical(*self),
            v3_in(r@, 2 * WORLD_MAX as int),
    {
        let offset = Vec3::up().mul(self.viewport.1);
        proof {
            lemma_div_t_mul_cancel(self.viewport.1 as int, FP_ONE as int);
            assert((FP_ONE as int) * (self.viewport.1 as int) == (self.viewport.1 as int) * (
            FP_ONE as int)) by (nonlinear_arith);
        }
        self.pos.add(&offset)
    }

    pub fn lower_left_corner(&self) -> (r: Vec3)
        requires
            camera_wf(*self),
        ensures
            r@ == cam_lower_left(*self),
            v3_in(r@, 4 * WORLD_MAX as int),
    {
        let h = self.horizontal();
        let v = self.vertical();
        let half_h = h.div(2 * FP_ONE);
        let half_v = v.div(2 * FP_ONE);
        proof {
            lemma_div_t_bound(h@.x * FP_ONE, 2 * FP_ONE as int, WORLD_MAX as int);
            lemma_div_t_bound(h@.y * FP_ONE, 2 * FP_ONE as int, WORLD_MAX as int);
            lemma_div_t_bound(h@.z * FP_ONE, 2 * FP_ONE as int, WORLD_MAX as int);
            lemma_div_t_bound(v@.x * FP_ONE, 2 * FP_ONE as int, WORLD_MAX as int);
            lemma_div_t_bound(v@.y * FP_ONE, 2 * FP_ONE as int, WORLD_MAX as int);
            lemma_div_t_bound(v@.z * FP_ONE, 2 * FP_ONE as int, WORLD_MAX as int);
        }
        let fwd = Vec3::forw().mul(self.focal_length);
        proof {
            lemma_div_t_mul_cancel(self.focal_length as int, FP_ONE as int);
            assert((FP_ONE as int) * (self.focal_length as int) == (self.focal_length as int) * (
            FP_ONE as int)) by (nonlinear_arith);
        }
        self.pos.sub(&half_h).sub(&half_v).sub(&fwd)
    }

    /// The world ray through normalised plane coordinates `(u, v)`,
    /// each a fixed-point scalar in [0, 2].
    pub fn get_ray(&self, u: i64, v: i64) -> (r: Ray)
        requires
            camera_wf(*self),
            0 <= u <= 2 * FP_ONE,
            0 <= v <= 2 * FP_ONE,
        ensures
            r.origin == self.pos,
            r.dir@ == cam_ray_dir(*self, u as int, v as int),
            ray_wf(r),
    {
        let llc = self.lower_left_corner();
        let h = self.horizontal();
        let vv = self.vertical();
        let hu = h.mul(u);
        let vv_v = vv.mul(v);
        proof {
            lemma_mul_bound(h@.x, u as int, 2 * WORLD_MAX as int, 2 * FP_ONE as int);
            lemma_mul_bound(h@.y, u as int, 2 * WORLD_MAX as int, 2 * FP_ONE as int);
            lemma_mul_bound(h@.z, u as int, 2 * WORLD_MAX as int, 2 * FP_ONE as int);
            lemma_mul_bound(vv@.x, v as int, 2 * WORLD_MAX as int, 2 * FP_ONE as int);
            lemma_mul_bound(vv@.y, v as int, 2 * WORLD_MAX as int, 2 * FP_ONE as int);
            lemma_mul_bound(vv@.z, v as int, 2 * WORLD_MAX as int, 2 * FP_ONE as int);
            lemma_div_t_bound(h@.x * u, FP_ONE as int, 4 * WORLD_MAX as int);
            lemma_div_t_bound(h@.y * u, FP_ONE as int, 4 * WORLD_MAX as int);
            lemma_div_t_bound(h@.z * u, FP_ONE as int, 4 * WORLD_MAX as int);
            lemma_div_t_bound(vv@.x * v, FP_ONE as int, 4 * WORLD_MAX as int);
            lemma_div_t_bound(vv@.y * v, FP_ONE as int, 4 * WORLD_MAX as int);
            lemma_div_t_bound(vv@.z * v, FP_ONE as int, 4 * WORLD_MAX as int);
        }
        let dir = llc.add(&hu).add(&vv_v).sub(&self.pos);
        Ray { origin: self.pos, dir }
    }
}

} // verus!
