//! The scene and the path integrator.
//!
//! A scene owns one camera and an ordered list of renderables. For
//! each primary ray the integrator walks up to `max_bounces`
//! reflections: the nearest hit scatters the ray about the surface
//! normal, radiance accumulates as emission weighted by the running
//! throughput, and a miss terminates the walk with the light
//! gathered so far.

use vstd::prelude::*;
use crate::num::FP_ONE;
use crate::num::div_t;
use crate::num::div_trunc;
use crate::num::lemma_div_t_nonneg;
use crate::num::lemma_div_t_bound;
use crate::camera::Camera;
use crate::camera::camera_wf;
use crate::objects::Renderable;
use crate::objects::HitResult;
use crate::objects::Sphere;
use crate::objects::Material;
use crate::objects::rend_wf;
use crate::objects::rend_hit_none;
use crate::objects::rend_hit_distance;
use crate::objects::rend_hit_matches;
use crate::objects::EMISSION_MAX;
use crate::ray::Ray;
use crate::ray::ray_wf;
use crate::rng::RandomSource;
use crate::vec3::Vec3;
use crate::vec3::V3;
use crate::vec3::v3_in;
use crate::vec3::v3_nonneg;
use crate::vec3::v3_zero;
use crate::vec3::v3_scale;
use crate::vec3::v3_add;
use crate::vec3::v3_hadamard;
use crate::vec3::v3_dot_raw;
use crate::vec3::v3_mag_sq_raw;
use crate::vec3::channel_value;
use crate::vec3::lemma_hadamard_box;
use crate::vec3::lemma_scale_box;
use crate::num::is_sqrt;
use crate::num::lemma_sqrt_floor;

verus! {

/// Componentwise bound on the radiance one primary ray can gather:
/// every bounce adds at most `EMISSION_MAX` per channel.
pub const LIGHT_MAX: i64 = 0x4_0000_0000;

/// The material a renderable would report on a hit.
pub open spec fn rend_material(o: Renderable) -> Material {
    match o {
        Renderable::Sphere(s) => s.material,
    }
}

/// The light a material emits: its emission colour scaled by its
/// emission strength.
pub open spec fn emission_term(m: Material) -> V3 {
    v3_scale(m.emission_colour@, m.emission_strength as int)
}

/// The sphere a renderable consists of.
pub open spec fn rend_sphere(o: Renderable) -> Sphere {
    match o {
        Renderable::Sphere(s) => s,
    }
}

/// Exactly the three objects of the demonstration scene: the small
/// diffuse sphere, the large ground sphere, and the white lamp.
pub open spec fn test_scene_objects(objs: Seq<Renderable>) -> bool {
    &&& objs.len() == 3
    &&& rend_sphere(objs[0]).centre@ == (V3 { x: 0, y: 0, z: -3 * FP_ONE })
    &&& rend_sphere(objs[0]).radius == FP_ONE
    &&& rend_sphere(objs[0]).material.base_colour@ == (V3 { x: 19660, y: 45875, z: 58982 })
    &&& rend_sphere(objs[0]).material.emission_colour@ == v3_zero()
    &&& rend_sphere(objs[0]).material.emission_strength == 0
    &&& rend_sphere(objs[1]).centre@ == (V3 { x: 0, y: -30 * FP_ONE, z: 0 })
    &&& rend_sphere(objs[1]).radius == 29 * FP_ONE
    &&& rend_sphere(objs[1]).material.base_colour@ == (V3 {
        x: FP_ONE as int,
        y: 45875,
        z: 13107,
    })
    &&& rend_sphere(objs[1]).material.emission_colour@ == v3_zero()
    &&& rend_sphere(objs[1]).material.emission_strength == 0
    &&& rend_sphere(objs[2]).centre@ == (V3 { x: -10 * FP_ONE, y: 0, z: -30 * FP_ONE })
    &&& rend_sphere(objs[2]).radius == 15 * FP_ONE
    &&& rend_sphere(objs[2]).material.base_colour@ == v3_zero()
    &&& rend_sphere(objs[2]).material.emission_colour@ == (V3 {
        x: FP_ONE as int,
        y: FP_ONE as int,
        z: FP_ONE as int,
    })
    &&& rend_sphere(objs[2]).material.emission_strength == FP_ONE
}

/// No object of the scene intersects `ray` anywhere along it.
pub open spec fn scene_misses(objs: Seq<Renderable>, ray: Ray) -> bool {
    forall|i: int|
        0 <= i < objs.len() ==> #[trigger] rend_hit_none(objs[i], ray, 0, i64::MAX as int)
}

/// Every material of the scene is non-emissive.
pub open spec fn scene_dark(objs: Seq<Renderable>) -> bool {
    forall|i: int|
        0 <= i < objs.len() ==> (#[trigger] rend_material(objs[i])).emission_strength == 0
}

/// `h` is a hit some object reports, no farther than any other
/// object's hit.
pub open spec fn nearest_witness(objs: Seq<Renderable>, ray: Ray, h: HitResult) -> bool {
    &&& exists|i: int|
        0 <= i < objs.len() && #[trigger] rend_hit_matches(objs[i], ray, 0, i64::MAX as int, h)
    &&& forall|j: int|
        0 <= j < objs.len() && !(#[trigger] rend_hit_none(objs[j], ray, 0, i64::MAX as int))
            ==> h.distance <= rend_hit_distance(objs[j], ray, 0, i64::MAX as int)
}

/// `next` is a diffuse scatter of the ray that produced `h`: it
/// starts at the hit position, aimed along the hit normal plus some
/// near-unit direction from the hemisphere around that normal.
pub open spec fn scatter_ok(next: Ray, h: HitResult) -> bool {
    &&& next.origin == h.pos
    &&& exists|u: V3|
        v3_in(u, FP_ONE as int) && v3_dot_raw(u, h.normal@) >= 0 && (FP_ONE as int) * (FP_ONE
            as int) - 7 * (FP_ONE as int) <= #[trigger] v3_mag_sq_raw(u) <= (FP_ONE as int) * (
        FP_ONE as int) + 8 * (FP_ONE as int) && next.dir@ == v3_add(h.normal@, u)
}

/// `trace` is a chain of bounces: `rays` starts at the primary ray,
/// each trace element is a nearest hit of the ray before it, and
/// each later ray is a diffuse scatter off the element before it.
pub open spec fn bounce_trace(
    objs: Seq<Renderable>,
    primary: Ray,
    trace: Seq<HitResult>,
    rays: Seq<Ray>,
) -> bool {
    &&& rays.len() == trace.len() + 1
    &&& rays[0] == primary
    &&& forall|k: int| 0 <= k < trace.len() ==> #[trigger] nearest_witness(objs, rays[k], trace[k])
    &&& forall|k: int| 0 <= k < trace.len() ==> scatter_ok(#[trigger] rays[k + 1], trace[k])
}

/// The throughput after the first `k` hits of a trace: the running
/// Hadamard product of the albedos, starting from all-ones.
pub open spec fn trace_throughput(trace: Seq<HitResult>, k: int) -> V3
    decreases k,
{
    if k <= 0 {
        V3 { x: FP_ONE as int, y: FP_ONE as int, z: FP_ONE as int }
    } else {
        v3_hadamard(trace_throughput(trace, k - 1), trace[k - 1].material.base_colour@)
    }
}

/// The radiance gathered along the first `k` hits of a trace: each
/// hit's emission weighted by the throughput accumulated before it.
pub open spec fn trace_light(trace: Seq<HitResult>, k: int) -> V3
    decreases k,
{
    if k <= 0 {
        v3_zero()
    } else {
        v3_add(
            trace_light(trace, k - 1),
            v3_hadamard(emission_term(trace[k - 1].material), trace_throughput(trace, k - 1)),
        )
    }
}

/// Appending to a trace changes neither the throughput nor the light
/// of its prefix.
pub proof fn lemma_trace_prefix(trace: Seq<HitResult>, h: HitResult, j: int)
    requires
        0 <= j <= trace.len(),
    ensures
        trace_throughput(trace.push(h), j) == trace_throughput(trace, j),
        trace_light(trace.push(h), j) == trace_light(trace, j),
    decreases j,
{
    if j > 0 {
        lemma_trace_prefix(trace, h, j - 1);
        assert(trace.push(h)[j - 1] == trace[j - 1]);
    }
}

/// Bytes `3p`, `3p+1`, `3p+2` of a rendered buffer are the
/// gamma-quantised channels of one nonnegative radiance accumulator,
/// bounded by `spp` samples of `LIGHT_MAX` each.
pub open spec fn pixel_ok(bytes: Seq<u8>, p: int, spp: int) -> bool {
    exists|acc: V3|
        #[trigger] v3_nonneg(acc) && v3_in(acc, spp * (LIGHT_MAX as int)) && bytes[3 * p]
            == channel_value(acc.x, spp) && bytes[3 * p + 1] == channel_value(acc.y, spp)
            && bytes[3 * p + 2] == channel_value(acc.z, spp)
}

/// Everything `cast` promises of the radiance `c` returned for the
/// primary ray `pr`, restated as a predicate so that callers can
/// speak of sample values.
pub open spec fn cast_post(objs: Seq<Renderable>, max_bounces: int, pr: Ray, c: V3) -> bool {
    &&& v3_nonneg(c)
    &&& v3_in(c, LIGHT_MAX as int)
    &&& scene_misses(objs, pr) ==> c == v3_zero()
    &&& scene_dark(objs) ==> c == v3_zero()
    &&& max_bounces >= 1 && !scene_misses(objs, pr) ==> exists|h: HitResult|
        #[trigger] nearest_witness(objs, pr, h) && emission_term(h.material).x <= c.x
            && emission_term(h.material).y <= c.y && emission_term(h.material).z <= c.z && (
        h.material.base_colour@ == v3_zero() ==> c == emission_term(h.material))
    &&& exists|trace: Seq<HitResult>, rays: Seq<Ray>|
        #[trigger] bounce_trace(objs, pr, trace, rays) && trace.len() <= max_bounces && (trace.len()
            == max_bounces || scene_misses(objs, rays[trace.len() as int])) && c == trace_light(
            trace,
            trace.len() as int,
        )
}

/// The jitter pair lies in [0, 1) and the sample ray is well-formed.
pub open spec fn jitter_ok(ju: int, jv: int, pr: Ray) -> bool {
    0 <= ju < FP_ONE && 0 <= jv < FP_ONE && ray_wf(pr)
}

/// `c` is a radiance one jittered sample of pixel (x, y) can yield:
/// some jitter pair in [0, 1) gives a camera ray through that pixel
/// (rows run top-to-bottom while the plane's v axis runs bottom-to-
/// top), and `c` satisfies everything `cast` promises of that ray.
pub open spec fn sample_radiance_ok(
    objs: Seq<Renderable>,
    cam: Camera,
    x: int,
    y: int,
    c: V3,
) -> bool {
    exists|ju: int, jv: int, pr: Ray|
        #[trigger] jitter_ok(ju, jv, pr) && pr.origin == cam.pos && pr.dir@ == crate::camera::cam_ray_dir(
            cam,
            div_t(x * FP_ONE + ju, cam.resolution.0 as int),
            div_t(((cam.resolution.1 as int) - y) * FP_ONE + jv, cam.resolution.1 as int),
        ) && cast_post(objs, cam.max_bounces as int, pr, c)
}

/// The componentwise sum of a sequence of radiances.
pub open spec fn v3_sum(s: Seq<V3>) -> V3
    decreases s.len(),
{
    if s.len() == 0 {
        v3_zero()
    } else {
        v3_add(v3_sum(s.drop_last()), s.last())
    }
}

/// The three bytes are the gamma-quantised channels of a sum of
/// exactly `samples_per_pixel` radiances, each one a possible
/// jittered sample of pixel (x, y).
pub open spec fn pixel_bytes_ok(
    b0: u8,
    b1: u8,
    b2: u8,
    objs: Seq<Renderable>,
    cam: Camera,
    x: int,
    y: int,
) -> bool {
    exists|samples: Seq<V3>|
        #![trigger v3_sum(samples)]
        samples.len() == cam.samples_per_pixel && (forall|i: int|
            0 <= i < samples.len() ==> sample_radiance_ok(objs, cam, x, y, #[trigger] samples[i]))
            && b0 == channel_value(v3_sum(samples).x, cam.samples_per_pixel as int) && b1
            == channel_value(v3_sum(samples).y, cam.samples_per_pixel as int) && b2
            == channel_value(v3_sum(samples).z, cam.samples_per_pixel as int)
}

/// Pixel (x, y) of a rendered buffer — row-major from the top-left,
/// three bytes starting at `3 * (y * width + x)` — quantises a sum of
/// exactly `samples_per_pixel` admissible sample radiances.
pub open spec fn pixel_sampled(
    bytes: Seq<u8>,
    objs: Seq<Renderable>,
    cam: Camera,
    x: int,
    y: int,
) -> bool {
    let p = y * (cam.resolution.0 as int) + x;
    pixel_bytes_ok(bytes[3 * p], bytes[3 * p + 1], bytes[3 * p + 2], objs, cam, x, y)
}

pub struct Scene {
    pub camera: Camera,
    pub objects: Vec<Renderable>,
}

impl Scene {
    /// The camera is well-formed and so is every object.
    pub open spec fn wf(&self) -> bool {
        &&& camera_wf(self.camera)
        &&& forall|i: int| 0 <= i < self.objects@.len() ==> rend_wf(#[trigger] self.objects@[i])
    }

    pub fn new(camera: Camera, objects: Vec<Renderable>) -> (r: Scene)
        requires
            camera_wf(camera),
            forall|i: int| 0 <= i < objects@.len() ==> rend_wf(#[trigger] objects@[i]),
        ensures
            r.wf(),
            r.camera == camera,
            r.objects == objects,
    {
        Scene { camera, objects }
    }

    /// The demonstration scene: a small diffuse sphere, a large
    /// ground sphere, and a distant white lamp, seen by the default
    /// camera.
    pub fn test_scene() -> (r: Scene)
        ensures
            r.wf(),
            test_scene_objects(r.objects@),
            r.camera.pos@ == v3_zero(),
            r.camera.focal_length == FP_ONE,
            r.camera.viewport.0 == div_t(16 * FP_ONE as int, 9),
            r.camera.viewport.1 == FP_ONE,
            r.camera.resolution == (800u32, 450u32),
            r.camera.samples_per_pixel == 4,
            r.camera.max_bounces == 4,
    {
        let small = Renderable::Sphere(
            Sphere::new(
                Vec3::new(0, 0, -3 * FP_ONE),
                FP_ONE,
                Material::with_colour(Vec3::new(19660, 45875, 58982)),
            ),
        );
        let ground = Renderable::Sphere(
            Sphere::new(
                Vec3::new(0, -30 * FP_ONE, 0),
                29 * FP_ONE,
                Material::with_colour(Vec3::new(FP_ONE, 45875, 13107)),
            ),
        );
        let lamp = Renderable::Sphere(
            Sphere::new(Vec3::new(-10 * FP_ONE, 0, -30 * FP_ONE), 15 * FP_ONE, Material::white_lamp()),
        );
        let mut objects: Vec<Renderable> = Vec::new();
        objects.push(small);
        objects.push(ground);
        objects.push(lamp);
        proof {
            assert(objects@[0] == small && objects@[1] == ground && objects@[2] == lamp);
        }
        Scene { camera: Camera::new(), objects }
    }

    /// The nearest in-range hit over all objects, scanned linearly:
    /// `None` exactly when every object misses.
    pub fn nearest_hit(&self, ray: &Ray) -> (r: Option<HitResult>)
        requires
            self.wf(),
            ray_wf(*ray),
        ensures
            r is None <==> scene_misses(self.objects@, *ray),
            r matches Some(h) ==> nearest_witness(self.objects@, *ray, h),
    {
        let n = self.objects.len();
        let mut best: Option<HitResult> = None;
        let mut i: usize = 0;
        while i < n
            invariant
                self.wf(),
                ray_wf(*ray),
                n == self.objects@.len(),
                0 <= i <= n,
                best is None <==> (forall|k: int|
                    0 <= k < i ==> #[trigger] rend_hit_none(self.objects@[k], *ray, 0, i64::MAX as int)),
                best matches Some(h) ==> exists|k: int|
                    0 <= k < i && #[trigger] rend_hit_matches(
                        self.objects@[k],
                        *ray,
                        0,
                        i64::MAX as int,
                        h,
                    ),
                best matches Some(h) ==> forall|k: int|
                    0 <= k < i && !(#[trigger] rend_hit_none(self.objects@[k], *ray, 0, i64::MAX as int))
                        ==> h.distance <= rend_hit_distance(self.objects@[k], *ray, 0, i64::MAX as int),
            decreases n - i,
        {
            let obj = self.objects[i];
            let maybe_hit = obj.hit_test(ray, 0, i64::MAX);
            match (best, maybe_hit) {
                (None, Some(hit)) => {
                    best = Some(hit);
                },
                (Some(best_hr), Some(hit)) => {
                    if hit.distance < best_hr.distance {
                        best = Some(hit);
                    }
                },
                _ => {},
            }
            i = i + 1;
        }
        best
    }

    /// Traces one primary ray through up to `max_bounces` diffuse
    /// reflections and returns the radiance gathered. The result is a
    /// nonnegative, bounded colour; it is zero whenever every object
    /// misses the primary ray, and zero in a scene with no emissive
    /// material. When the primary ray does hit and at least one
    /// bounce is allowed, the first bounce lands with full
    /// throughput, so the result carries at least the nearest hit's
    /// own emission.
    pub fn cast(&self, rng: &mut RandomSource, ray: &Ray) -> (r: Vec3)
        requires
            self.wf(),
            ray_wf(*ray),
        ensures
            v3_nonneg(r@),
            v3_in(r@, LIGHT_MAX as int),
            scene_misses(self.objects@, *ray) ==> r@ == v3_zero(),
            scene_dark(self.objects@) ==> r@ == v3_zero(),
            self.camera.max_bounces >= 1 && !scene_misses(self.objects@, *ray)
                ==> exists|h: HitResult|
                #[trigger] nearest_witness(self.objects@, *ray, h) && emission_term(h.material).x
                    <= r@.x && emission_term(h.material).y <= r@.y && emission_term(h.material).z
                    <= r@.z && (h.material.base_colour@ == v3_zero() ==> r@ == emission_term(
                    h.material,
                )),
            exists|trace: Seq<HitResult>, rays: Seq<Ray>|
                #[trigger] bounce_trace(self.objects@, *ray, trace, rays) && trace.len()
                    <= self.camera.max_bounces && (trace.len() == self.camera.max_bounces as int
                    || scene_misses(self.objects@, rays[trace.len() as int])) && r@ == trace_light(
                    trace,
                    trace.len() as int,
                ),
    {
        let mut ray_colour = Vec3::ones();
        let mut incoming_light = Vec3::zero();
        let mut working_ray: Ray = *ray;
        let mut missed: bool = false;
        let mut bounce: u8 = 0;
        let max: u8 = self.camera.max_bounces;
        let ghost mut trace: Seq<HitResult> = Seq::empty();
        let ghost mut rays: Seq<Ray> = seq![*ray];
        while bounce < max && !missed
            invariant
                self.wf(),
                ray_wf(working_ray),
                bounce <= max,
                v3_nonneg(ray_colour@),
                v3_in(ray_colour@, FP_ONE as int),
                v3_nonneg(incoming_light@),
                v3_in(incoming_light@, (bounce as int) * (EMISSION_MAX as int)),
                scene_misses(self.objects@, *ray) ==> incoming_light@ == v3_zero() && (missed
                    || working_ray == *ray),
                scene_dark(self.objects@) ==> incoming_light@ == v3_zero(),
                bounce == 0 ==> working_ray == *ray && incoming_light@ == v3_zero()
                    && ray_colour@ == (V3 {
                    x: FP_ONE as int,
                    y: FP_ONE as int,
                    z: FP_ONE as int,
                }),
                missed ==> bounce >= 1,
                !scene_misses(self.objects@, *ray) && bounce >= 1 ==> exists|h: HitResult|
                    #[trigger] nearest_witness(self.objects@, *ray, h) && emission_term(
                        h.material,
                    ).x <= incoming_light@.x && emission_term(h.material).y <= incoming_light@.y
                        && emission_term(h.material).z <= incoming_light@.z && (
                    h.material.base_colour@ == v3_zero() ==> incoming_light@ == emission_term(
                        h.material,
                    ) && ray_colour@ == v3_zero()),
                rays.len() == trace.len() + 1,
                rays[0] == *ray,
                bounce_trace(self.objects@, *ray, trace, rays),
                incoming_light@ == trace_light(trace, trace.len() as int),
                ray_colour@ == trace_throughput(trace, trace.len() as int),
                trace.len() <= bounce as int,
                !missed ==> trace.len() == bounce as int && rays[trace.len() as int] == working_ray,
                missed ==> scene_misses(self.objects@, rays[trace.len() as int]),
            decreases max - bounce,
        {
            let ghost src_ray = working_ray;
            let best_hit = self.nearest_hit(&working_ray);
            if let Some(hit) = best_hit {
                proof {
                    let i = choose|i: int|
                        0 <= i < self.objects@.len() && #[trigger] rend_hit_matches(
                            self.objects@[i],
                            working_ray,
                            0,
                            i64::MAX as int,
                            hit,
                        );
                    assert(rend_wf(self.objects@[i]));
                    match self.objects@[i] {
                        Renderable::Sphere(s) => {
                            assert(hit.material == s.material);
                        },
                    }
                    if scene_dark(self.objects@) {
                        assert(rend_material(self.objects@[i]).emission_strength == 0);
                    }
                }
                let hemi = Vec3::random_on_hemisphere(rng, hit.normal);
                let new_dir = hit.normal.add(&hemi);
                working_ray = Ray { origin: hit.pos, dir: new_dir };
                let em = hit.material.emission_colour.mul(hit.material.emission_strength);
                proof {
                    lemma_scale_box(
                        hit.material.emission_colour@,
                        hit.material.emission_strength as int,
                        FP_ONE as int,
                        EMISSION_MAX as int,
                        EMISSION_MAX as int,
                    );
                }
                let term = em.hadamard(&ray_colour);
                proof {
                    lemma_hadamard_box(
                        em@,
                        ray_colour@,
                        EMISSION_MAX as int,
                        FP_ONE as int,
                        EMISSION_MAX as int,
                    );
                    if scene_dark(self.objects@) {
                        assert(hit.material.emission_strength == 0);
                        let e = hit.material.emission_colour@;
                        assert(e.x * 0 == 0 && e.y * 0 == 0 && e.z * 0 == 0) by (nonlinear_arith);
                        assert(crate::num::div_t(0, FP_ONE as int) == 0);
                        assert(em@ == v3_zero());
                        let rc = ray_colour@;
                        assert(0 * rc.x == 0 && 0 * rc.y == 0 && 0 * rc.z == 0) by (nonlinear_arith);
                        assert(term@ == v3_zero());
                    }
                }
                let ghost pre_incoming = incoming_light@;
                let ghost pre_colour = ray_colour@;
                incoming_light = incoming_light.add(&term);
                let new_colour = ray_colour.hadamard(&hit.material.base_colour);
                proof {
                    lemma_hadamard_box(
                        ray_colour@,
                        hit.material.base_colour@,
                        FP_ONE as int,
                        FP_ONE as int,
                        FP_ONE as int,
                    );
                }
                ray_colour = new_colour;
                proof {
                    let b = hit.material.base_colour@;
                    if !scene_misses(self.objects@, *ray) {
                        if bounce == 0 {
                            // the first bounce lands with full throughput:
                            // the added term is exactly the hit's emission
                            crate::num::lemma_div_t_mul_cancel(em@.x, FP_ONE as int);
                            crate::num::lemma_div_t_mul_cancel(em@.y, FP_ONE as int);
                            crate::num::lemma_div_t_mul_cancel(em@.z, FP_ONE as int);
                            assert(term@ == em@);
                            assert(incoming_light@ == em@);
                            assert(nearest_witness(self.objects@, *ray, hit));
                            assert(emission_term(hit.material) == em@);
                            if b == v3_zero() {
                                // zero albedo ends all further gathering
                                assert(pre_colour.x * 0 == 0 && pre_colour.y * 0 == 0
                                    && pre_colour.z * 0 == 0) by (nonlinear_arith);
                                assert(crate::num::div_t(0, FP_ONE as int) == 0);
                                assert(ray_colour@ == v3_zero());
                            }
                        } else {
                            let h0 = choose|h: HitResult|
                                #[trigger] nearest_witness(self.objects@, *ray, h) && emission_term(
                                    h.material,
                                ).x <= pre_incoming.x && emission_term(h.material).y
                                    <= pre_incoming.y && emission_term(h.material).z
                                    <= pre_incoming.z && (h.material.base_colour@ == v3_zero()
                                    ==> pre_incoming == emission_term(h.material) && pre_colour
                                    == v3_zero());
                            if h0.material.base_colour@ == v3_zero() {
                                // throughput is already zero: nothing more lands
                                assert(em@.x * 0 == 0 && em@.y * 0 == 0 && em@.z * 0 == 0)
                                    by (nonlinear_arith);
                                assert(0 * b.x == 0 && 0 * b.y == 0 && 0 * b.z == 0)
                                    by (nonlinear_arith);
                                assert(crate::num::div_t(0, FP_ONE as int) == 0);
                                assert(term@ == v3_zero());
                                assert(incoming_light@ == pre_incoming);
                                assert(ray_colour@ == v3_zero());
                            }
                            assert(nearest_witness(self.objects@, *ray, h0) && emission_term(
                                h0.material,
                            ).x <= incoming_light@.x && emission_term(h0.material).y
                                <= incoming_light@.y && emission_term(h0.material).z
                                <= incoming_light@.z && (h0.material.base_colour@ == v3_zero()
                                ==> incoming_light@ == emission_term(h0.material) && ray_colour@
                                == v3_zero()));
                        }
                    }
                    // extend the bounce trace by this hit and its scatter
                    let pre_trace = trace;
                    let pre_rays = rays;
                    let n = pre_trace.len() as int;
                    trace = trace.push(hit);
                    rays = rays.push(working_ray);
                    lemma_trace_prefix(pre_trace, hit, n);
                    assert(trace[n] == hit);
                    assert(trace_light(trace, n + 1) == v3_add(
                        pre_incoming,
                        v3_hadamard(emission_term(hit.material), pre_colour),
                    ));
                    assert(emission_term(hit.material) == em@);
                    assert(term@ == v3_hadamard(em@, pre_colour));
                    assert(incoming_light@ == trace_light(trace, n + 1));
                    assert(ray_colour@ == trace_throughput(trace, n + 1));
                    assert forall|k: int| 0 <= k < trace.len() implies #[trigger] nearest_witness(
                        self.objects@,
                        rays[k],
                        trace[k],
                    ) by {
                        if k < n {
                            assert(rays[k] == pre_rays[k] && trace[k] == pre_trace[k]);
                            assert(nearest_witness(self.objects@, pre_rays[k], pre_trace[k]));
                        } else {
                            assert(rays[k] == src_ray && trace[k] == hit);
                        }
                    }
                    assert forall|k: int| 0 <= k < trace.len() implies scatter_ok(
                        #[trigger] rays[k + 1],
                        trace[k],
                    ) by {
                        if k < n {
                            assert(rays[k + 1] == pre_rays[k + 1] && trace[k] == pre_trace[k]);
                            assert(scatter_ok(pre_rays[k + 1], pre_trace[k]));
                        } else {
                            assert(rays[k + 1] == working_ray && trace[k] == hit);
                            assert(working_ray.origin == hit.pos);
                            assert(v3_in(hemi@, FP_ONE as int) && v3_dot_raw(hemi@, hit.normal@)
                                >= 0 && (FP_ONE as int) * (FP_ONE as int) - 7 * (FP_ONE as int)
                                <= v3_mag_sq_raw(hemi@) <= (FP_ONE as int) * (FP_ONE as int) + 8 * (
                            FP_ONE as int) && working_ray.dir@ == v3_add(hit.normal@, hemi@));
                        }
                    }
                    assert(bounce_trace(self.objects@, *ray, trace, rays));
                }
            } else {
                missed = true;
                proof {
                    assert(scene_misses(self.objects@, working_ray));
                }
            }
            bounce = bounce + 1;
        }
        proof {
            assert(bounce_trace(self.objects@, *ray, trace, rays) && trace.len()
                <= self.camera.max_bounces && (trace.len() == self.camera.max_bounces as int
                || scene_misses(self.objects@, rays[trace.len() as int])) && incoming_light@
                == trace_light(trace, trace.len() as int));
        }
        incoming_light
    }

    /// Renders the whole image: for every pixel, `samples_per_pixel`
    /// jittered camera rays are traced and averaged into one
    /// gamma-corrected RGB triple. The buffer is row-major from the
    /// top-left, three bytes per pixel; every triple is the
    /// gamma-quantisation of a nonnegative per-pixel radiance sum,
    /// and a scene with no emissive material renders all black.
    pub fn render(&self, rng: &mut RandomSource) -> (r: Vec<u8>)
        requires
            self.wf(),
        ensures
            r@.len() == 3 * (self.camera.resolution.0 as int) * (self.camera.resolution.1 as int),
            forall|p: int|
                0 <= p < (self.camera.resolution.0 as int) * (self.camera.resolution.1 as int)
                    ==> #[trigger] pixel_ok(r@, p, self.camera.samples_per_pixel as int),
            forall|x: int, y: int|
                0 <= x < self.camera.resolution.0 && 0 <= y < self.camera.resolution.1
                    ==> #[trigger] pixel_sampled(r@, self.objects@, self.camera, x, y),
            scene_dark(self.objects@) ==> forall|i: int| 0 <= i < r@.len() ==> r@[i] == 0,
    {
        let width: u32 = self.camera.resolution.0;
        let height: u32 = self.camera.resolution.1;
        let spp: u32 = self.camera.samples_per_pixel;
        let mut buf: Vec<u8> = Vec::new();
        let mut y: u32 = 0;
        while y < height
            invariant
                self.wf(),
                width == self.camera.resolution.0,
                height == self.camera.resolution.1,
                spp == self.camera.samples_per_pixel,
                y <= height,
                buf@.len() == 3 * (width as int) * (y as int),
                forall|p: int|
                    0 <= p < (width as int) * (y as int) ==> #[trigger] pixel_ok(
                        buf@,
                        p,
                        spp as int,
                    ),
                forall|xx: int, yy: int|
                    0 <= xx < width && 0 <= yy < y ==> #[trigger] pixel_sampled(
                        buf@,
                        self.objects@,
                        self.camera,
                        xx,
                        yy,
                    ),
                scene_dark(self.objects@) ==> forall|i: int| 0 <= i < buf@.len() ==> buf@[i] == 0,
            decreases height - y,
        {
            let mut x: u32 = 0;
            while x < width
                invariant
                    self.wf(),
                    width == self.camera.resolution.0,
                    height == self.camera.resolution.1,
                    spp == self.camera.samples_per_pixel,
                    y < height,
                    x <= width,
                    buf@.len() == 3 * (width as int) * (y as int) + 3 * (x as int),
                    forall|p: int|
                        0 <= p < (width as int) * (y as int) + (x as int) ==> #[trigger] pixel_ok(
                            buf@,
                            p,
                            spp as int,
                        ),
                    forall|xx: int, yy: int|
                        0 <= xx < width && 0 <= yy < y ==> #[trigger] pixel_sampled(
                            buf@,
                            self.objects@,
                            self.camera,
                            xx,
                            yy,
                        ),
                    forall|xx: int|
                        0 <= xx < x ==> #[trigger] pixel_sampled(
                            buf@,
                            self.objects@,
                            self.camera,
                            xx,
                            y as int,
                        ),
                    scene_dark(self.objects@) ==> forall|i: int|
                        0 <= i < buf@.len() ==> buf@[i] == 0,
                decreases width - x,
            {
                let mut acc = Vec3::zero();
                let mut s: u32 = 0;
                let ghost mut samples: Seq<V3> = Seq::empty();
                while s < spp
                    invariant
                        self.wf(),
                        width == self.camera.resolution.0,
                        height == self.camera.resolution.1,
                        spp == self.camera.samples_per_pixel,
                        y < height,
                        x < width,
                        s <= spp,
                        v3_nonneg(acc@),
                        v3_in(acc@, (s as int) * (LIGHT_MAX as int)),
                        scene_dark(self.objects@) ==> acc@ == v3_zero(),
                        samples.len() == s,
                        acc@ == v3_sum(samples),
                        forall|i: int|
                            0 <= i < samples.len() ==> sample_radiance_ok(
                                self.objects@,
                                self.camera,
                                x as int,
                                y as int,
                                #[trigger] samples[i],
                            ),
                    decreases spp - s,
                {
                    let ju = rng.next_below(FP_ONE as u64) as i64;
                    let jv = rng.next_below(FP_ONE as u64) as i64;
                    let u_num: i64 = (x as i64) * FP_ONE + ju;
                    let v_num: i64 = ((height - y) as i64) * FP_ONE + jv;
                    let u: i64 = div_trunc(u_num, width as i64);
                    let v: i64 = div_trunc(v_num, height as i64);
                    proof {
                        lemma_div_t_nonneg(u_num as int, width as int);
                        lemma_div_t_nonneg(v_num as int, height as int);
                        lemma_div_t_bound(u_num as int, width as int, 2 * FP_ONE as int);
                        lemma_div_t_bound(v_num as int, height as int, 2 * FP_ONE as int);
                    }
                    let ray = self.camera.get_ray(u, v);
                    let c = self.cast(rng, &ray);
                    acc = acc.add(&c);
                    proof {
                        let pre_samples = samples;
                        samples = samples.push(c@);
                        assert(samples.drop_last() =~= pre_samples);
                        assert(v3_sum(samples) == v3_add(v3_sum(pre_samples), c@));
                        assert(jitter_ok(ju as int, jv as int, ray));
                        assert(cast_post(self.objects@, self.camera.max_bounces as int, ray, c@));
                        assert(ray.dir@ == crate::camera::cam_ray_dir(
                            self.camera,
                            div_t((x as int) * FP_ONE + ju, self.camera.resolution.0 as int),
                            div_t(
                                ((self.camera.resolution.1 as int) - (y as int)) * FP_ONE + jv,
                                self.camera.resolution.1 as int,
                            ),
                        ));
                        assert(sample_radiance_ok(
                            self.objects@,
                            self.camera,
                            x as int,
                            y as int,
                            c@,
                        ));
                        assert forall|i: int| 0 <= i < samples.len() implies sample_radiance_ok(
                            self.objects@,
                            self.camera,
                            x as int,
                            y as int,
                            #[trigger] samples[i],
                        ) by {
                            if i < pre_samples.len() {
                                assert(samples[i] == pre_samples[i]);
                            } else {
                                assert(samples[i] == c@);
                            }
                        }
                    }
                    s = s + 1;
                }
                let pix = acc.to_colour(spp);
                let ghost pre_buf = buf@;
                let ghost pi = (width as int) * (y as int) + (x as int);
                buf.push(pix[0]);
                buf.push(pix[1]);
                buf.push(pix[2]);
                proof {
                    assert(pre_buf.len() == 3 * pi) by (nonlinear_arith)
                        requires
                            pre_buf.len() == 3 * (width as int) * (y as int) + 3 * (x as int),
                            pi == (width as int) * (y as int) + (x as int),
                    ;
                    assert(buf@[3 * pi] == pix[0] && buf@[3 * pi + 1] == pix[1] && buf@[3 * pi + 2]
                        == pix[2]);
                    assert(v3_nonneg(acc@) && v3_in(acc@, (spp as int) * (LIGHT_MAX as int)));
                    assert(pixel_ok(buf@, pi, spp as int));
                    assert forall|p: int| 0 <= p < pi + 1 implies #[trigger] pixel_ok(
                        buf@,
                        p,
                        spp as int,
                    ) by {
                        if p < pi {
                            assert(pixel_ok(pre_buf, p, spp as int));
                            let a = choose|acc0: V3|
                                #[trigger] v3_nonneg(acc0) && v3_in(
                                    acc0,
                                    (spp as int) * (LIGHT_MAX as int),
                                ) && pre_buf[3 * p] == channel_value(acc0.x, spp as int)
                                    && pre_buf[3 * p + 1] == channel_value(acc0.y, spp as int)
                                    && pre_buf[3 * p + 2] == channel_value(acc0.z, spp as int);
                            assert(buf@[3 * p] == pre_buf[3 * p] && buf@[3 * p + 1] == pre_buf[3 * p
                                + 1] && buf@[3 * p + 2] == pre_buf[3 * p + 2]);
                            assert(v3_nonneg(a));
                        }
                    }
                    if scene_dark(self.objects@) {
                        assert(is_sqrt(0, 0));
                        lemma_sqrt_floor(0, 0);
                        assert(channel_value(0, spp as int) == 0);
                        assert(pix[0] == 0 && pix[1] == 0 && pix[2] == 0);
                    }
                    let px_i = x as int;
                    let py_i = y as int;
                    assert(py_i * (width as int) + px_i == pi) by (nonlinear_arith)
                        requires
                            pi == (width as int) * py_i + px_i,
                    ;
                    assert(acc@ == v3_sum(samples) && samples.len() == spp);
                    assert(pixel_bytes_ok(
                        buf@[3 * pi],
                        buf@[3 * pi + 1],
                        buf@[3 * pi + 2],
                        self.objects@,
                        self.camera,
                        px_i,
                        py_i,
                    ));
                    assert(pixel_sampled(buf@, self.objects@, self.camera, px_i, py_i));
                    assert forall|xx: int, yy: int|
                        0 <= xx < width && 0 <= yy < py_i implies #[trigger] pixel_sampled(
                        buf@,
                        self.objects@,
                        self.camera,
                        xx,
                        yy,
                    ) by {
                        let p2 = yy * (width as int) + xx;
                        assert(0 <= p2 && p2 < pi) by (nonlinear_arith)
                            requires
                                p2 == yy * (width as int) + xx,
                                0 <= xx < width as int,
                                0 <= yy < py_i,
                                pi == (width as int) * py_i + px_i,
                                0 <= px_i,
                        ;
                        assert(buf@[3 * p2] == pre_buf[3 * p2] && buf@[3 * p2 + 1] == pre_buf[3 * p2
                            + 1] && buf@[3 * p2 + 2] == pre_buf[3 * p2 + 2]);
                        assert(pixel_sampled(pre_buf, self.objects@, self.camera, xx, yy));
                    }
                    assert forall|xx: int| 0 <= xx < px_i implies #[trigger] pixel_sampled(
                        buf@,
                        self.objects@,
                        self.camera,
                        xx,
                        py_i,
                    ) by {
                        let p2 = py_i * (width as int) + xx;
                        assert(0 <= p2 && p2 < pi) by (nonlinear_arith)
                            requires
                                p2 == py_i * (width as int) + xx,
                                0 <= xx < px_i,
                                0 <= py_i,
                                0 <= width as int,
                                pi == (width as int) * py_i + px_i,
                        ;
                        assert(buf@[3 * p2] == pre_buf[3 * p2] && buf@[3 * p2 + 1] == pre_buf[3 * p2
                            + 1] && buf@[3 * p2 + 2] == pre_buf[3 * p2 + 2]);
                        assert(pixel_sampled(pre_buf, self.objects@, self.camera, xx, py_i));
                    }
                }
                x = x + 1;
            }
            proof {
                assert forall|xx: int, yy: int|
                    0 <= xx < width && 0 <= yy < (y as int) + 1 implies #[trigger] pixel_sampled(
                    buf@,
                    self.objects@,
                    self.camera,
                    xx,
                    yy,
                ) by {
                    if yy < y as int {
                        assert(pixel_sampled(buf@, self.objects@, self.camera, xx, yy));
                    } else {
                        assert(pixel_sampled(buf@, self.objects@, self.camera, xx, y as int));
                    }
                }
            }
            proof {
                assert(3 * (width as int) * ((y as int) + 1) == 3 * (width as int) * (y as int) + 3
                    * (width as int)) by (nonlinear_arith);
                assert((width as int) * ((y as int) + 1) == (width as int) * (y as int) + (width
                    as int)) by (nonlinear_arith);
            }
            y = y + 1;
        }
        buf
    }
}

} // verus!
