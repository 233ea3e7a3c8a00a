//! Materials, hit records and the renderable primitives.
//!
//! A renderable is a closed set of variants; the sphere is the one
//! concrete primitive. Intersection solves the quadratic
//! `a*t^2 + 2*half_b*t + c = 0` over fixed-point scalars, preferring
//! the nearer in-range root, and reports a hit record whose normal is
//! re-oriented to oppose the incoming ray.

use vstd::prelude::*;
use crate::num::FP_ONE;
use crate::num::div_t;
use crate::num::div_trunc;
use crate::num::div_trunc_wide;
use crate::num::is_sqrt;
use crate::num::isqrt;
use crate::num::sqrt_floor;
use crate::num::lemma_div_t_bound;
use crate::num::lemma_mul_bound;
use crate::ray::Ray;
use crate::ray::ray_wf;
use crate::ray::ORIGIN_MAX;
use crate::ray::DIR_MAX;
use crate::vec3::Vec3;
use crate::vec3::V3;
use crate::vec3::VEC_MAX;
use crate::vec3::v3_in;
use crate::vec3::v3_nonneg;
use crate::vec3::v3_zero;
use crate::vec3::v3_sub;
use crate::vec3::v3_add;
use crate::vec3::v3_neg;
use crate::vec3::v3_scale;
use crate::vec3::v3_dot;
use crate::vec3::v3_dot_raw;
use crate::vec3::v3_mag_sq_raw;
use crate::vec3::v3_mag;
use crate::vec3::v3_normalised;

verus! {

/// Componentwise bound on scene geometry: sphere centres, radii and
/// camera fields all stay within this many fixed-point units.
pub const WORLD_MAX: i64 = 0x100_0000;

/// Cap on a material's emission strength.
pub const EMISSION_MAX: i64 = 0x400_0000;

/// A purely diffuse material: an albedo, an emission colour and an
/// emission strength.
#[derive(Clone, Copy, PartialEq, Eq, Structural, Debug)]
pub struct Material {
    pub base_colour: Vec3,
    pub emission_colour: Vec3,
    pub emission_strength: i64,
}

/// Colour channels lie in the unit cube and the emission strength is
/// a bounded nonnegative scalar.
pub open spec fn mat_wf(m: Material) -> bool {
    &&& v3_nonneg(m.base_colour@)
    &&& v3_in(m.base_colour@, FP_ONE as int)
    &&& v3_nonneg(m.emission_colour@)
    &&& v3_in(m.emission_colour@, FP_ONE as int)
    &&& 0 <= m.emission_strength <= EMISSION_MAX
}

impl Material {
    /// A non-emissive material of the given albedo.
    pub fn with_colour(base: Vec3) -> (r: Material)
        ensures
            r.base_colour == base,
            r.emission_colour@ == v3_zero(),
            r.emission_strength == 0,
    {
        Material { base_colour: base, emission_colour: Vec3::zero(), emission_strength: 0 }
    }

    /// A white lamp: no albedo, full white emission at unit strength.
    pub fn white_lamp() -> (r: Material)
        ensures
            r.base_colour@ == v3_zero(),
            r.emission_colour@ == (V3 { x: FP_ONE as int, y: FP_ONE as int, z: FP_ONE as int }),
            r.emission_strength == FP_ONE,
            mat_wf(r),
    {
        Material { base_colour: Vec3::zero(), emission_colour: Vec3::ones(), emission_strength: FP_ONE }
    }
}

/// The result of a successful intersection test: parametric distance,
/// hit position, front-facing unit normal, and the struck material.
#[derive(Clone, Copy, PartialEq, Eq, Structural, Debug)]
pub struct HitResult {
    pub pos: Vec3,
    pub normal: Vec3,
    pub distance: i64,
    pub front_face: bool,
    pub material: Material,
}

impl HitResult {
    /// Re-orients `outward_normal` to oppose the incoming ray:
    /// `front_face` records whether the ray struck from outside.
    pub fn set_face_normal(&mut self, ray: &Ray, outward_normal: &Vec3)
        requires
            v3_in(ray.dir@, VEC_MAX as int),
            v3_in(outward_normal@, VEC_MAX as int),
        ensures
            final(self).front_face == (v3_dot(ray.dir@, outward_normal@) < 0),
            final(self).normal@ == (if v3_dot(ray.dir@, outward_normal@) < 0 {
                outward_normal@
            } else {
                v3_neg(outward_normal@)
            }),
            final(self).pos == old(self).pos,
            final(self).distance == old(self).distance,
            final(self).material == old(self).material,
    {
        self.front_face = ray.dir.dot(outward_normal) < 0;
        self.normal = if self.front_face {
            *outward_normal
        } else {
            outward_normal.neg()
        };
    }
}

/// A sphere: centre, radius and material.
#[derive(Clone, Copy, PartialEq, Eq, Structural, Debug)]
pub struct Sphere {
    pub centre: Vec3,
    pub radius: i64,
    pub material: Material,
}

/// The sphere sits within the world bounds and has positive radius.
pub open spec fn sphere_wf(s: Sphere) -> bool {
    &&& v3_in(s.centre@, WORLD_MAX as int)
    &&& 1 <= s.radius <= WORLD_MAX
    &&& mat_wf(s.material)
}

/// `|dir|^2`, the quadratic's leading coefficient.
pub open spec fn hit_a(ray: Ray) -> int {
    div_t(v3_mag_sq_raw(ray.dir@), FP_ONE as int)
}

/// The ray origin relative to the sphere's centre.
pub open spec fn hit_oc(s: Sphere, ray: Ray) -> V3 {
    v3_sub(ray.origin@, s.centre@)
}

/// Half the quadratic's linear coefficient: `dot(origin - centre, dir)`.
pub open spec fn hit_half_b(s: Sphere, ray: Ray) -> int {
    div_t(v3_dot_raw(hit_oc(s, ray), ray.dir@), FP_ONE as int)
}

/// The quadratic's constant term: `|origin - centre|^2 - radius^2`.
pub open spec fn hit_c(s: Sphere, ray: Ray) -> int {
    div_t(v3_mag_sq_raw(hit_oc(s, ray)), FP_ONE as int) - div_t(
        (s.radius as int) * (s.radius as int),
        FP_ONE as int,
    )
}

/// The discriminant `half_b^2 - a*c`; negative means the ray misses.
pub open spec fn hit_disc(s: Sphere, ray: Ray) -> int {
    div_t(hit_half_b(s, ray) * hit_half_b(s, ray), FP_ONE as int) - div_t(
        hit_a(ray) * hit_c(s, ray),
        FP_ONE as int,
    )
}

/// The discriminant's square root, at the fixed-point scale.
pub open spec fn hit_sqrt_d(s: Sphere, ray: Ray) -> int {
    sqrt_floor(hit_disc(s, ray) * FP_ONE)
}

/// The nearer root of the quadratic: the entry point.
pub open spec fn hit_root_near(s: Sphere, ray: Ray) -> int {
    div_t((-hit_half_b(s, ray) - hit_sqrt_d(s, ray)) * FP_ONE, hit_a(ray))
}

/// The farther root of the quadratic: the exit point.
pub open spec fn hit_root_far(s: Sphere, ray: Ray) -> int {
    div_t((-hit_half_b(s, ray) + hit_sqrt_d(s, ray)) * FP_ONE, hit_a(ray))
}

/// The root the test reports: the nearer one when it lies in range,
/// else the farther one.
pub open spec fn hit_root(s: Sphere, ray: Ray, t_min: int, t_max: int) -> int {
    if t_min <= hit_root_near(s, ray) <= t_max {
        hit_root_near(s, ray)
    } else {
        hit_root_far(s, ray)
    }
}

/// Where the chosen root puts the hit: `origin + dir * root`.
pub open spec fn hit_pos(s: Sphere, ray: Ray, t_min: int, t_max: int) -> V3 {
    v3_add(ray.origin@, v3_scale(ray.dir@, hit_root(s, ray, t_min, t_max)))
}

/// The hit position relative to the centre; its normalisation is the
/// outward normal.
pub open spec fn hit_offset(s: Sphere, ray: Ray, t_min: int, t_max: int) -> V3 {
    v3_sub(hit_pos(s, ray, t_min, t_max), s.centre@)
}

pub open spec fn hit_outward(s: Sphere, ray: Ray, t_min: int, t_max: int) -> V3 {
    v3_normalised(hit_offset(s, ray, t_min, t_max))
}

/// The reported, front-facing normal.
pub open spec fn hit_normal(s: Sphere, ray: Ray, t_min: int, t_max: int) -> V3 {
    if v3_dot(ray.dir@, hit_outward(s, ray, t_min, t_max)) < 0 {
        hit_outward(s, ray, t_min, t_max)
    } else {
        v3_neg(hit_outward(s, ray, t_min, t_max))
    }
}

/// The least distance from the centre a reported hit point may have:
/// one unit inside the surface, but never below a quarter unit (so
/// the outward normal normalises to near-unit magnitude), and only
/// for spheres of under a quarter-unit radius the centre itself.
pub open spec fn hit_guard_lo(s: Sphere) -> int {
    if s.radius < 16384 {
        0
    } else if s.radius - FP_ONE > 16384 {
        s.radius - FP_ONE
    } else {
        16384
    }
}

/// Exactly when the test reports no hit: a degenerate direction, a
/// negative discriminant, both roots out of range, or a hit point
/// whose offset from the centre leaves the window of one unit around
/// the surface, so the arithmetic is treated as a miss.
pub open spec fn hit_none(s: Sphere, ray: Ray, t_min: int, t_max: int) -> bool {
    ||| hit_a(ray) <= 0
    ||| hit_disc(s, ray) < 0
    ||| (!(t_min <= hit_root_near(s, ray) <= t_max) && !(t_min <= hit_root_far(s, ray) <= t_max))
    ||| !v3_in(hit_offset(s, ray, t_min, t_max), s.radius + FP_ONE as int)
    ||| v3_mag_sq_raw(hit_offset(s, ray, t_min, t_max)) < 1
    ||| v3_mag_sq_raw(hit_offset(s, ray, t_min, t_max)) < hit_guard_lo(s) * hit_guard_lo(s)
    ||| v3_mag_sq_raw(hit_offset(s, ray, t_min, t_max)) > (s.radius + FP_ONE as int) * (s.radius
        + FP_ONE as int)
}

/// `h` is the hit record the sphere reports for this ray and range:
/// its fields equal the spec-level solution, and its position sits
/// within one unit of the sphere's surface.
pub open spec fn hit_matches(s: Sphere, ray: Ray, t_min: int, t_max: int, h: HitResult) -> bool {
    &&& h.distance == hit_root(s, ray, t_min, t_max)
    &&& h.pos@ == hit_pos(s, ray, t_min, t_max)
    &&& h.normal@ == hit_normal(s, ray, t_min, t_max)
    &&& h.front_face == (v3_dot(ray.dir@, hit_outward(s, ray, t_min, t_max)) < 0)
    &&& h.material == s.material
    &&& v3_in(h.pos@, ORIGIN_MAX as int)
    &&& v3_in(h.normal@, FP_ONE as int)
    &&& t_min <= h.distance <= t_max
    &&& hit_guard_lo(s) * hit_guard_lo(s) <= v3_mag_sq_raw(v3_sub(h.pos@, s.centre@)) <= (s.radius
        + FP_ONE as int) * (s.radius + FP_ONE as int)
    &&& s.radius >= 16384 ==> (FP_ONE as int) * (FP_ONE as int) - 7 * (FP_ONE as int)
        <= v3_mag_sq_raw(h.normal@) <= (FP_ONE as int) * (FP_ONE as int) + 8 * (FP_ONE as int)
}

impl Sphere {
    pub fn new(centre: Vec3, radius: i64, material: Material) -> (r: Sphere)
        ensures
            r.centre == centre,
            r.radius == radius,
            r.material == material,
    {
        Sphere { centre, radius, material }
    }

    /// Reports the nearest in-range intersection of `ray` with this
    /// sphere, or nothing: `None` exactly under `hit_none`, and any
    /// reported record satisfies `hit_matches`.
    pub fn hit_test(&self, ray: &Ray, t_min: i64, t_max: i64) -> (r: Option<HitResult>)
        requires
            sphere_wf(*self),
            ray_wf(*ray),
            t_min <= t_max,
        ensures
            r is None <==> hit_none(*self, *ray, t_min as int, t_max as int),
            r matches Some(h) ==> hit_matches(*self, *ray, t_min as int, t_max as int, h),
    {
        let ghost tmin = t_min as int;
        let ghost tmax = t_max as int;
        let oc = ray.origin.sub(&self.centre);
        proof {
            assert(oc@ == hit_oc(*self, *ray));
        }
        let dir_raw: i64 = ray.dir.dot_raw(&ray.dir);
        proof {
            lemma_mul_bound(ray.dir@.x, ray.dir@.x, DIR_MAX as int, DIR_MAX as int);
            lemma_mul_bound(ray.dir@.y, ray.dir@.y, DIR_MAX as int, DIR_MAX as int);
            lemma_mul_bound(ray.dir@.z, ray.dir@.z, DIR_MAX as int, DIR_MAX as int);
            lemma_div_t_bound(v3_mag_sq_raw(ray.dir@), FP_ONE as int, 0x300_0000_0000);
        }
        let a: i64 = div_trunc(dir_raw, FP_ONE);
        if a <= 0 {
            return None;
        }
        let half_b: i64 = div_trunc(oc.dot_raw(&ray.dir), FP_ONE);
        let c_oc: i64 = div_trunc(oc.dot_raw(&oc), FP_ONE);
        proof {
            lemma_div_t_bound(
                v3_dot_raw(oc@, ray.dir@),
                FP_ONE as int,
                3 * (VEC_MAX as int) * (VEC_MAX as int) / (FP_ONE as int),
            );
            lemma_div_t_bound(
                v3_mag_sq_raw(oc@),
                FP_ONE as int,
                3 * (VEC_MAX as int) * (VEC_MAX as int) / (FP_ONE as int),
            );
            lemma_mul_bound(self.radius as int, self.radius as int, WORLD_MAX as int, WORLD_MAX as int);
        }
        let rsq: i64 = div_trunc(self.radius * self.radius, FP_ONE);
        proof {
            lemma_div_t_bound(
                (self.radius as int) * (self.radius as int),
                FP_ONE as int,
                (WORLD_MAX as int) * (WORLD_MAX as int) / (FP_ONE as int),
            );
        }
        let c: i64 = c_oc - rsq;
        proof {
            lemma_mul_bound(half_b as int, half_b as int, 0x4000_0000_0000, 0x4000_0000_0000);
            lemma_mul_bound(a as int, c as int, 0x300_0000_0000, 0x4000_0000_0000);
        }
        let hb_w: i128 = (half_b as i128) * (half_b as i128);
        let ac_w: i128 = (a as i128) * (c as i128);
        let disc: i128 = div_trunc_wide(hb_w, FP_ONE as i128) - div_trunc_wide(ac_w, FP_ONE as i128);
        proof {
            lemma_div_t_bound(hb_w as int, FP_ONE as int, 0x1000_0000_0000_0000_0000);
            lemma_div_t_bound(ac_w as int, FP_ONE as int, 0x1000_0000_0000_0000_0000);
            assert(disc as int == hit_disc(*self, *ray));
        }
        if disc < 0 {
            return None;
        }
        proof {
            lemma_mul_bound(disc as int, FP_ONE as int, 0x2000_0000_0000_0000_0000, FP_ONE as int);
        }
        let sqrt_arg: u128 = (disc as u128) * (FP_ONE as u128);
        let sqrt_wide: u128 = isqrt(sqrt_arg);
        proof {
            assert(sqrt_wide as int == hit_sqrt_d(*self, *ray));
            assert((sqrt_wide as int) * (sqrt_wide as int) <= sqrt_arg as int);
            assert(sqrt_wide < 0x1_0000_0000_0000) by (nonlinear_arith)
                requires
                    (sqrt_wide as int) * (sqrt_wide as int) <= sqrt_arg as int,
                    sqrt_arg as int <= 0x2000_0000_0000_0000_0000 * (FP_ONE as int),
                    sqrt_wide >= 0,
            ;
        }
        let sqrt_d: i64 = sqrt_wide as i64;
        let num_near: i128 = ((-half_b - sqrt_d) as i128) * (FP_ONE as i128);
        proof {
            lemma_mul_bound((-half_b - sqrt_d) as int, FP_ONE as int, 0x2_0000_0000_0000, FP_ONE as int);
        }
        let root_near_w: i128 = div_trunc_wide(num_near, a as i128);
        proof {
            lemma_div_t_bound(num_near as int, a as int, 0x2_0000_0000_0000 * (FP_ONE as int));
            assert(root_near_w as int == hit_root_near(*self, *ray));
        }
        let root: i64;
        if root_near_w >= t_min as i128 && root_near_w <= t_max as i128 {
            root = root_near_w as i64;
        } else {
            let num_far: i128 = ((-half_b + sqrt_d) as i128) * (FP_ONE as i128);
            proof {
                lemma_mul_bound(
                    (-half_b + sqrt_d) as int,
                    FP_ONE as int,
                    0x2_0000_0000_0000,
                    FP_ONE as int,
                );
            }
            let root_far_w: i128 = div_trunc_wide(num_far, a as i128);
            proof {
                lemma_div_t_bound(num_far as int, a as int, 0x2_0000_0000_0000 * (FP_ONE as int));
                assert(root_far_w as int == hit_root_far(*self, *ray));
            }
            if root_far_w < t_min as i128 || root_far_w > t_max as i128 {
                return None;
            }
            root = root_far_w as i64;
        }
        proof {
            assert(root as int == hit_root(*self, *ray, tmin, tmax));
        }
        let lim: i128 = (self.radius + FP_ONE) as i128;
        let px = wide_at(ray.origin.x, ray.dir.x, root);
        let py = wide_at(ray.origin.y, ray.dir.y, root);
        let pz = wide_at(ray.origin.z, ray.dir.z, root);
        proof {
            assert(V3 { x: px as int, y: py as int, z: pz as int } == hit_pos(*self, *ray, tmin, tmax));
        }
        let dx = px - self.centre.x as i128;
        let dy = py - self.centre.y as i128;
        let dz = pz - self.centre.z as i128;
        if dx < -lim || dx > lim || dy < -lim || dy > lim || dz < -lim || dz > lim {
            return None;
        }
        let offset = Vec3::new(dx as i64, dy as i64, dz as i64);
        proof {
            assert(offset@ == hit_offset(*self, *ray, tmin, tmax));
        }
        let raw = offset.dot_raw(&offset);
        if raw < 1 {
            return None;
        }
        let lo: i64 = if self.radius < 16384 {
            0
        } else if self.radius - FP_ONE > 16384 {
            self.radius - FP_ONE
        } else {
            16384
        };
        let hi: i64 = self.radius + FP_ONE;
        proof {
            lemma_mul_bound(lo as int, lo as int, WORLD_MAX as int, WORLD_MAX as int);
            lemma_mul_bound(hi as int, hi as int, 2 * WORLD_MAX as int, 2 * WORLD_MAX as int);
        }
        if raw < lo * lo || raw > hi * hi {
            return None;
        }
        let pos = Vec3::new(px as i64, py as i64, pz as i64);
        let outward = offset.normalise();
        let mut hr = HitResult {
            distance: root,
            pos,
            normal: outward,
            front_face: false,
            material: self.material,
        };
        hr.set_face_normal(ray, &outward);
        proof {
            if self.radius >= 16384 {
                assert(16384 * 16384 <= (lo as int) * (lo as int)) by (nonlinear_arith)
                    requires
                        lo >= 16384,
                ;
                crate::vec3::lemma_normalised_magnitude(offset@);
                if !(v3_dot(ray.dir@, outward@) < 0) {
                    assert(v3_mag_sq_raw(v3_neg(outward@)) == v3_mag_sq_raw(outward@))
                        by (nonlinear_arith);
                }
            }
        }
        Some(hr)
    }
}

/// A ray aimed straight at a sphere's centre from outside hits it,
/// at a parametric distance of exactly the centre distance less the
/// radius, with the reported normal anti-parallel to the ray: stated
/// for a unit axis direction and whole-unit geometry, where the
/// fixed-point arithmetic is exact (truncation perturbs fractional
/// set-ups).
pub proof fn lemma_head_on_hit(s: Sphere, ray: Ray, k: int, j: int)
    requires
        ray.dir@ == (V3 { x: 0, y: 0, z: -(FP_ONE as int) }),
        s.centre@ == (V3 { x: ray.origin@.x, y: ray.origin@.y, z: ray.origin@.z - k * FP_ONE }),
        s.radius == j * FP_ONE,
        1 <= j < k <= 256,
    ensures
        !hit_none(s, ray, 0, i64::MAX as int),
        hit_root(s, ray, 0, i64::MAX as int) == v3_mag(hit_oc(s, ray)) - s.radius,
        hit_root(s, ray, 0, i64::MAX as int) == (k - j) * FP_ONE,
        hit_normal(s, ray, 0, i64::MAX as int) == v3_neg(v3_normalised(ray.dir@)),
        hit_normal(s, ray, 0, i64::MAX as int) == (V3 { x: 0, y: 0, z: FP_ONE as int }),
{
    let sc = FP_ONE as int;
    let tmax = i64::MAX as int;
    let oc = hit_oc(s, ray);
    assert(oc == V3 { x: 0, y: 0, z: k * sc });
    // a = |dir|^2 / scale = scale
    assert(v3_mag_sq_raw(ray.dir@) == sc * sc) by (nonlinear_arith)
        requires
            ray.dir@ == (V3 { x: 0, y: 0, z: -sc }),
    ;
    crate::num::lemma_div_t_mul_cancel(sc, sc);
    assert(hit_a(ray) == sc);
    // half_b = dot(oc, dir) / scale = -k * scale
    assert(v3_dot_raw(oc, ray.dir@) == (-(k * sc)) * sc) by (nonlinear_arith)
        requires
            oc == (V3 { x: 0, y: 0, z: k * sc }),
            ray.dir@ == (V3 { x: 0, y: 0, z: -sc }),
    ;
    crate::num::lemma_div_t_mul_cancel(-(k * sc), sc);
    assert(hit_half_b(s, ray) == -(k * sc));
    // c = |oc|^2 / scale - radius^2 / scale = (k*k - j*j) * scale
    assert(v3_mag_sq_raw(oc) == (k * k * sc) * sc) by (nonlinear_arith)
        requires
            oc == (V3 { x: 0, y: 0, z: k * sc }),
    ;
    assert((s.radius as int) * (s.radius as int) == (j * j * sc) * sc) by (nonlinear_arith)
        requires
            s.radius == j * sc,
    ;
    crate::num::lemma_div_t_mul_cancel(k * k * sc, sc);
    crate::num::lemma_div_t_mul_cancel(j * j * sc, sc);
    assert(hit_c(s, ray) == k * k * sc - j * j * sc);
    // disc = half_b^2/scale - a*c/scale = j*j*scale
    assert(hit_half_b(s, ray) * hit_half_b(s, ray) == (k * k * sc) * sc) by (nonlinear_arith)
        requires
            hit_half_b(s, ray) == -(k * sc),
    ;
    assert(hit_a(ray) * hit_c(s, ray) == (k * k * sc - j * j * sc) * sc) by (nonlinear_arith)
        requires
            hit_a(ray) == sc,
            hit_c(s, ray) == k * k * sc - j * j * sc,
    ;
    crate::num::lemma_div_t_mul_cancel(k * k * sc - j * j * sc, sc);
    assert(hit_disc(s, ray) == j * j * sc);
    // sqrt(disc * scale) = j * scale, exactly
    assert(hit_disc(s, ray) * sc == (j * sc) * (j * sc)) by (nonlinear_arith)
        requires
            hit_disc(s, ray) == j * j * sc,
    ;
    assert(is_sqrt((j * sc) * (j * sc), j * sc)) by (nonlinear_arith)
        requires
            j >= 1,
            sc >= 1,
    ;
    crate::num::lemma_sqrt_floor((j * sc) * (j * sc), j * sc);
    assert(hit_sqrt_d(s, ray) == j * sc);
    // the near root: (k - j) * scale, in range
    assert((-hit_half_b(s, ray) - hit_sqrt_d(s, ray)) * sc == ((k - j) * sc) * sc)
        by (nonlinear_arith)
        requires
            hit_half_b(s, ray) == -(k * sc),
            hit_sqrt_d(s, ray) == j * sc,
    ;
    crate::num::lemma_div_t_mul_cancel((k - j) * sc, sc);
    assert(hit_root_near(s, ray) == (k - j) * sc);
    assert(0 <= (k - j) * sc <= tmax) by (nonlinear_arith)
        requires
            1 <= j < k <= 256,
            sc == 65536,
            tmax == i64::MAX as int,
    ;
    assert(hit_root(s, ray, 0, tmax) == (k - j) * sc);
    // the reported distance is the centre distance less the radius
    assert(is_sqrt((k * sc) * (k * sc), k * sc)) by (nonlinear_arith)
        requires
            k >= 1,
            sc >= 1,
    ;
    assert(v3_mag_sq_raw(oc) == (k * sc) * (k * sc)) by (nonlinear_arith)
        requires
            oc == (V3 { x: 0, y: 0, z: k * sc }),
    ;
    crate::num::lemma_sqrt_floor((k * sc) * (k * sc), k * sc);
    assert(v3_mag(oc) == k * sc);
    // the hit point sits one radius short of the centre on the axis
    let root = hit_root(s, ray, 0, tmax);
    assert((-sc) * root == -(root * sc)) by (nonlinear_arith);
    crate::num::lemma_div_t_mul_cancel(root, sc);
    crate::num::lemma_div_t_neg(root * sc, sc);
    assert(0 * root == 0) by (nonlinear_arith);
    assert(crate::num::div_t(0, sc) == 0);
    assert(hit_pos(s, ray, 0, tmax) == V3 {
        x: ray.origin@.x,
        y: ray.origin@.y,
        z: ray.origin@.z - (k - j) * sc,
    });
    assert(hit_offset(s, ray, 0, tmax) == V3 { x: 0, y: 0, z: j * sc });
    // its offset from the centre is one radius: inside the guards
    assert(v3_in(hit_offset(s, ray, 0, tmax), s.radius + sc));
    assert(v3_mag_sq_raw(hit_offset(s, ray, 0, tmax)) == (j * sc) * (j * sc)) by (nonlinear_arith)
        requires
            hit_offset(s, ray, 0, tmax) == (V3 { x: 0, y: 0, z: j * sc }),
    ;
    assert(v3_mag_sq_raw(hit_offset(s, ray, 0, tmax)) >= 1) by (nonlinear_arith)
        requires
            v3_mag_sq_raw(hit_offset(s, ray, 0, tmax)) == (j * sc) * (j * sc),
            j >= 1,
            sc >= 1,
    ;
    // the hit point lies exactly one radius from the centre: inside
    // the window around the surface
    let lo = hit_guard_lo(s);
    assert(0 <= lo <= s.radius);
    assert(lo * lo <= (s.radius as int) * (s.radius as int) <= (s.radius + sc) * (s.radius + sc))
        by (nonlinear_arith)
        requires
            0 <= lo <= s.radius as int,
            sc >= 0,
    ;
    assert((s.radius as int) * (s.radius as int) == (j * sc) * (j * sc)) by (nonlinear_arith)
        requires
            s.radius == j * sc,
    ;
    assert(!hit_none(s, ray, 0, tmax));
    // the outward normal is the positive axis, and it faces the ray
    assert(v3_mag(hit_offset(s, ray, 0, tmax)) == j * sc);
    assert(sc * (j * sc) == (j * sc) * sc && 0 * (j * sc) == 0) by (nonlinear_arith);
    crate::num::lemma_div_t_mul_cancel(sc, j * sc);
    assert(crate::num::div_t(0, j * sc) == 0);
    assert(hit_outward(s, ray, 0, tmax) == V3 { x: 0, y: 0, z: sc });
    assert(v3_dot_raw(ray.dir@, hit_outward(s, ray, 0, tmax)) == -(sc * sc)) by (nonlinear_arith)
        requires
            ray.dir@ == (V3 { x: 0, y: 0, z: -sc }),
            hit_outward(s, ray, 0, tmax) == (V3 { x: 0, y: 0, z: sc }),
    ;
    crate::num::lemma_div_t_mul_cancel(sc, sc);
    crate::num::lemma_div_t_neg(sc * sc, sc);
    assert(v3_dot(ray.dir@, hit_outward(s, ray, 0, tmax)) == -sc);
    assert(hit_normal(s, ray, 0, tmax) == V3 { x: 0, y: 0, z: sc });
    // anti-parallel: the normal is the negated, normalised direction
    assert(v3_mag_sq_raw(ray.dir@) == sc * sc) by (nonlinear_arith)
        requires
            ray.dir@ == (V3 { x: 0, y: 0, z: -sc }),
    ;
    crate::num::lemma_sqrt_floor(sc * sc, sc);
    crate::num::lemma_div_t_neg(sc * sc, sc);
    assert(v3_normalised(ray.dir@) == V3 { x: 0, y: 0, z: -sc });
}

/// One coordinate of `origin + dir * t`, in wide arithmetic.
fn wide_at(origin: i64, dir: i64, t: i64) -> (r: i128)
    requires
        -(DIR_MAX as int) <= dir <= DIR_MAX as int,
        -(ORIGIN_MAX as int) <= origin <= ORIGIN_MAX as int,
    ensures
        r == origin + div_t(dir * t, FP_ONE as int),
        -0x1000_0000_0000_0000_0000 <= r <= 0x1000_0000_0000_0000_0000,
{
    proof {
        lemma_mul_bound(dir as int, t as int, DIR_MAX as int, 0x8000_0000_0000_0000);
        lemma_div_t_bound(
            (dir as int) * (t as int),
            FP_ONE as int,
            (DIR_MAX as int) * 0x8000_0000_0000_0000 / (FP_ONE as int),
        );
    }
    (origin as i128) + div_trunc_wide((dir as i128) * (t as i128), FP_ONE as i128)
}

/// Any geometric primitive capable of ray intersection testing: a
/// closed set of variants.
#[derive(Clone, Copy)]
pub enum Renderable {
    Sphere(Sphere),
}

pub open spec fn rend_wf(o: Renderable) -> bool {
    match o {
        Renderable::Sphere(s) => sphere_wf(s),
    }
}

pub open spec fn rend_hit_none(o: Renderable, ray: Ray, t_min: int, t_max: int) -> bool {
    match o {
        Renderable::Sphere(s) => hit_none(s, ray, t_min, t_max),
    }
}

pub open spec fn rend_hit_distance(o: Renderable, ray: Ray, t_min: int, t_max: int) -> int {
    match o {
        Renderable::Sphere(s) => hit_root(s, ray, t_min, t_max),
    }
}

pub open spec fn rend_hit_matches(
    o: Renderable,
    ray: Ray,
    t_min: int,
    t_max: int,
    h: HitResult,
) -> bool {
    match o {
        Renderable::Sphere(s) => hit_matches(s, ray, t_min, t_max, h),
    }
}

impl Renderable {
    /// Given a ray and a valid parametric interval, attempt
    /// intersection and report a hit record.
    pub fn hit_test(&self, ray: &Ray, t_min: i64, t_max: i64) -> (r: Option<HitResult>)
        requires
            rend_wf(*self),
            ray_wf(*ray),
            t_min <= t_max,
        ensures
            r is None <==> rend_hit_none(*self, *ray, t_min as int, t_max as int),
            r matches Some(h) ==> rend_hit_matches(*self, *ray, t_min as int, t_max as int, h),
            r matches Some(h) ==> h.distance == rend_hit_distance(
                *self,
                *ray,
                t_min as int,
                t_max as int,
            ),
    {
        match self {
            Renderable::Sphere(s) => s.hit_test(ray, t_min, t_max),
        }
    }
}

} // verus!
