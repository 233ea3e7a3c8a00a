use pathtracer::camera::Camera;
use pathtracer::num::FP_ONE;
use pathtracer::objects::Material;
use pathtracer::objects::Renderable;
use pathtracer::objects::Sphere;
use pathtracer::ray::Ray;
use pathtracer::rng::RandomSource;
use pathtracer::scene::Scene;
use pathtracer::vec3::Vec3;

fn grey() -> Material {
    Material::with_colour(Vec3::new(FP_ONE / 2, FP_ONE / 2, FP_ONE / 2))
}

#[test]
fn ray_at_walks_the_direction() {
    let ray = Ray { origin: Vec3::new(FP_ONE, 0, 0), dir: Vec3::new(0, 2 * FP_ONE, 0) };
    assert_eq!(ray.at(0), ray.origin);
    assert_eq!(ray.at(3 * FP_ONE), Vec3::new(FP_ONE, 6 * FP_ONE, 0));
}

#[test]
fn head_on_hit_reports_exact_distance_and_normal() {
    // a unit sphere three units ahead, the ray aimed straight at its centre
    let sphere = Sphere::new(Vec3::new(0, 0, -3 * FP_ONE), FP_ONE, grey());
    let ray = Ray { origin: Vec3::zero(), dir: Vec3::new(0, 0, -FP_ONE) };
    let hit = sphere.hit_test(&ray, 0, i64::MAX).expect("must hit");
    // distance equals |origin - centre| - radius, exactly
    assert_eq!(hit.distance, 2 * FP_ONE);
    assert_eq!(hit.pos, Vec3::new(0, 0, -2 * FP_ONE));
    // the normal opposes the incoming ray
    assert_eq!(hit.normal, Vec3::new(0, 0, FP_ONE));
    assert!(hit.front_face);
    assert_eq!(hit.material, grey());
}

#[test]
fn offset_ray_misses_entirely() {
    let sphere = Sphere::new(Vec3::new(0, 0, -3 * FP_ONE), FP_ONE, grey());
    // parallel to the hitting ray but offset three units: beyond the radius
    let ray = Ray { origin: Vec3::new(0, 3 * FP_ONE, 0), dir: Vec3::new(0, 0, -FP_ONE) };
    assert!(sphere.hit_test(&ray, 0, i64::MAX).is_none());
}

#[test]
fn ray_pointed_away_misses() {
    let sphere = Sphere::new(Vec3::new(0, 0, -3 * FP_ONE), FP_ONE, grey());
    let ray = Ray { origin: Vec3::zero(), dir: Vec3::new(0, 0, FP_ONE) };
    assert!(sphere.hit_test(&ray, 0, i64::MAX).is_none());
}

#[test]
fn degenerate_direction_is_a_miss() {
    let sphere = Sphere::new(Vec3::new(0, 0, -3 * FP_ONE), FP_ONE, grey());
    let ray = Ray { origin: Vec3::zero(), dir: Vec3::zero() };
    assert!(sphere.hit_test(&ray, 0, i64::MAX).is_none());
}

#[test]
fn grazing_interval_excludes_the_near_root() {
    // from five units away, the near surface is at t = 4, the far at t = 6
    let sphere = Sphere::new(Vec3::new(0, 0, -5 * FP_ONE), FP_ONE, grey());
    let ray = Ray { origin: Vec3::zero(), dir: Vec3::new(0, 0, -FP_ONE) };
    let near = sphere.hit_test(&ray, 0, i64::MAX).expect("must hit");
    assert_eq!(near.distance, 4 * FP_ONE);
    // an interval past the entry point picks the exit point
    let far = sphere.hit_test(&ray, 5 * FP_ONE, i64::MAX).expect("must hit");
    assert_eq!(far.distance, 6 * FP_ONE);
    assert!(!far.front_face);
    // an interval past both roots reports nothing
    assert!(sphere.hit_test(&ray, 7 * FP_ONE, i64::MAX).is_none());
}

#[test]
fn cast_returns_zero_when_everything_is_behind() {
    // one non-emissive sphere far behind the ray's direction
    let objects = vec![Renderable::Sphere(Sphere::new(
        Vec3::new(0, 0, 30 * FP_ONE),
        FP_ONE,
        grey(),
    ))];
    let scene = Scene::new(Camera::new(), objects);
    let mut rng = RandomSource::from_seed(23);
    let ray = Ray { origin: Vec3::zero(), dir: Vec3::new(0, 0, -FP_ONE) };
    assert_eq!(scene.cast(&mut rng, &ray), Vec3::zero());
}

#[test]
fn cast_returns_zero_in_a_dark_scene() {
    // the primary ray hits, but nothing in the scene emits light
    let objects = vec![Renderable::Sphere(Sphere::new(
        Vec3::new(0, 0, -3 * FP_ONE),
        FP_ONE,
        grey(),
    ))];
    let scene = Scene::new(Camera::new(), objects);
    let mut rng = RandomSource::from_seed(29);
    let ray = Ray { origin: Vec3::zero(), dir: Vec3::new(0, 0, -FP_ONE) };
    assert_eq!(scene.cast(&mut rng, &ray), Vec3::zero());
}

#[test]
fn nearest_hit_picks_the_minimum_distance() {
    let mut objects = Vec::new();
    objects.push(Renderable::Sphere(Sphere::new(Vec3::new(0, 0, -9 * FP_ONE), FP_ONE, grey())));
    objects.push(Renderable::Sphere(Sphere::new(Vec3::new(0, 0, -3 * FP_ONE), FP_ONE, grey())));
    objects.push(Renderable::Sphere(Sphere::new(Vec3::new(0, 0, -6 * FP_ONE), FP_ONE, grey())));
    let scene = Scene::new(Camera::new(), objects);
    let ray = Ray { origin: Vec3::zero(), dir: Vec3::new(0, 0, -FP_ONE) };
    let hit = scene.nearest_hit(&ray).expect("must hit");
    assert_eq!(hit.distance, 2 * FP_ONE);
    // a ray that threads past every sphere reports nothing
    let miss = Ray { origin: Vec3::new(0, 3 * FP_ONE, 0), dir: Vec3::new(0, 0, -FP_ONE) };
    assert!(scene.nearest_hit(&miss).is_none());
}

#[test]
fn nearest_object_shadows_the_farther_one() {
    // two lamps along one axis: light can only come from the nearer hit
    let mut objects = Vec::new();
    objects.push(Renderable::Sphere(Sphere::new(
        Vec3::new(0, 0, -3 * FP_ONE),
        FP_ONE,
        Material::white_lamp(),
    )));
    objects.push(Renderable::Sphere(Sphere::new(
        Vec3::new(0, 0, -30 * FP_ONE),
        FP_ONE,
        Material::white_lamp(),
    )));
    let scene = Scene::new(Camera::new(), objects);
    let mut rng = RandomSource::from_seed(31);
    let ray = Ray { origin: Vec3::zero(), dir: Vec3::new(0, 0, -FP_ONE) };
    // a white lamp of unit strength delivers full white on the first bounce,
    // and its albedo is zero, so later bounces add nothing
    assert_eq!(scene.cast(&mut rng, &ray), Vec3::new(FP_ONE, FP_ONE, FP_ONE));
}

#[test]
fn camera_ray_through_centre_points_down_the_axis() {
    let cam = Camera::new();
    let ray = cam.get_ray(FP_ONE / 2, FP_ONE / 2);
    assert_eq!(ray.origin, Vec3::zero());
    // the centre ray aims straight down the negative axis, up to truncation
    assert!(ray.dir.x.abs() <= 2);
    assert!(ray.dir.y.abs() <= 2);
    assert_eq!(ray.dir.z, -FP_ONE);
}

#[test]
fn render_is_deterministic_for_a_fixed_seed() {
    let mut scene = Scene::test_scene();
    scene.camera.resolution = (80, 45);
    scene.camera.samples_per_pixel = 2;
    let mut rng1 = RandomSource::from_seed(42);
    let image1 = scene.render(&mut rng1);
    let mut rng2 = RandomSource::from_seed(42);
    let image2 = scene.render(&mut rng2);
    assert_eq!(image1.len(), 3 * 80 * 45);
    assert_eq!(image1, image2);
    // a different seed draws different jitter and bounces
    let mut rng3 = RandomSource::from_seed(43);
    let image3 = scene.render(&mut rng3);
    assert!(image1 != image3);
}

#[test]
fn single_sample_render_is_valid() {
    let mut scene = Scene::test_scene();
    scene.camera.resolution = (16, 9);
    scene.camera.samples_per_pixel = 1;
    let mut rng = RandomSource::from_seed(5);
    let image = scene.render(&mut rng);
    assert_eq!(image.len(), 3 * 16 * 9);
}

#[test]
fn dark_scene_renders_black() {
    let objects = vec![Renderable::Sphere(Sphere::new(
        Vec3::new(0, 0, -3 * FP_ONE),
        FP_ONE,
        grey(),
    ))];
    let mut scene = Scene::new(Camera::new(), objects);
    scene.camera.resolution = (16, 9);
    scene.camera.samples_per_pixel = 1;
    let mut rng = RandomSource::from_seed(9);
    let image = scene.render(&mut rng);
    assert!(image.iter().all(|&b| b == 0));
}

#[test]
fn lamp_scene_renders_light_somewhere() {
    let mut scene = Scene::test_scene();
    scene.camera.resolution = (32, 18);
    scene.camera.samples_per_pixel = 2;
    let mut rng = RandomSource::from_seed(3);
    let image = scene.render(&mut rng);
    assert!(image.iter().any(|&b| b > 0));
}
