//! Rays: an origin, a direction, and parametric point evaluation.
//!
//! A direction need not be unit length: the parametric distance `t` is
//! relative to the direction's own scale.

use vstd::prelude::*;
use crate::num::FP_ONE;
use crate::num::div_trunc;
use crate::num::lemma_mul_bound;
use crate::vec3::Vec3;
use crate::vec3::v3_in;
use crate::vec3::v3_add;
use crate::vec3::v3_scale;

verus! {

/// Componentwise bound on the origin of a well-formed ray.
pub const ORIGIN_MAX: i64 = 0x400_0000;

/// Componentwise bound on the direction of a well-formed ray.
pub const DIR_MAX: i64 = 0x1000_0000;

#[derive(Clone, Copy, PartialEq, Eq, Structural, Debug)]
pub struct Ray {
    pub origin: Vec3,
    pub dir: Vec3,
}

/// The bounds under which intersection arithmetic cannot overflow.
pub open spec fn ray_wf(r: Ray) -> bool {
    v3_in(r.origin@, ORIGIN_MAX as int) && v3_in(r.dir@, DIR_MAX as int)
}

impl Ray {
    /// The point the ray reaches at parametric distance `t`:
    /// `origin + dir * t`.
    pub fn at(&self, t: i64) -> (r: Vec3)
        requires
            ray_wf(*self),
            0 <= t <= 0x4_0000_0000,
        ensures
            r@ == v3_add(self.origin@, v3_scale(self.dir@, t as int)),
    {
        proof {
            lemma_mul_bound(self.dir@.x, t as int, DIR_MAX as int, 0x4_0000_0000);
            lemma_mul_bound(self.dir@.y, t as int, DIR_MAX as int, 0x4_0000_0000);
            lemma_mul_bound(self.dir@.z, t as int, DIR_MAX as int, 0x4_0000_0000);
            crate::num::lemma_div_t_bound(
                self.dir@.x * t,
                FP_ONE as int,
                (DIR_MAX as int) * 0x4_0000_0000 / (FP_ONE as int),
            );
            crate::num::lemma_div_t_bound(
                self.dir@.y * t,
                FP_ONE as int,
                (DIR_MAX as int) * 0x4_0000_0000 / (FP_ONE as int),
            );
            crate::num::lemma_div_t_bound(
                self.dir@.z * t,
                FP_ONE as int,
                (DIR_MAX as int) * 0x4_0000_0000 / (FP_ONE as int),
            );
        }
        Vec3::new(
            self.origin.x + div_trunc(self.dir.x * t, FP_ONE),
            self.origin.y + div_trunc(self.dir.y * t, FP_ONE),
            self.origin.z + div_trunc(self.dir.z * t, FP_ONE),
        )
    }
}

} // verus!
