use pathtracer::num::FP_ONE;
use pathtracer::rng::RandomSource;
use pathtracer::vec3::Vec3;

#[test]
fn add_sub_are_exact() {
    let a = Vec3::new(3 * FP_ONE, -2 * FP_ONE, 7);
    let b = Vec3::new(FP_ONE, 5 * FP_ONE, -9);
    assert_eq!(a.add(&b), Vec3::new(4 * FP_ONE, 3 * FP_ONE, -2));
    assert_eq!(a.sub(&b), Vec3::new(2 * FP_ONE, -7 * FP_ONE, 16));
    // adding then subtracting the same vector is the identity
    assert_eq!(a.add(&b).sub(&b), a);
}

#[test]
fn scalar_mul_div_are_exact() {
    let a = Vec3::new(3 * FP_ONE, -2 * FP_ONE, 0);
    assert_eq!(a.mul(2 * FP_ONE), Vec3::new(6 * FP_ONE, -4 * FP_ONE, 0));
    assert_eq!(a.div(2 * FP_ONE), Vec3::new(3 * FP_ONE / 2, -FP_ONE, 0));
    // half a unit scales componentwise, truncating toward zero
    assert_eq!(Vec3::new(3, 0, 0).mul(FP_ONE / 2), Vec3::new(1, 0, 0));
}

#[test]
fn assign_ops_match_their_pure_forms() {
    let a = Vec3::new(3 * FP_ONE, -2 * FP_ONE, 7);
    let b = Vec3::new(FP_ONE, 5 * FP_ONE, -9);
    let mut v = a;
    v.add_assign(&b);
    assert_eq!(v, a.add(&b));
    v.sub_assign(&b);
    assert_eq!(v, a);
    v.mul_assign(3 * FP_ONE);
    assert_eq!(v, a.mul(3 * FP_ONE));
    v.div_assign(3 * FP_ONE);
    assert_eq!(v, a);
}

#[test]
fn dot_is_symmetric() {
    let a = Vec3::new(3 * FP_ONE, -2 * FP_ONE, 5 * FP_ONE);
    let b = Vec3::new(7 * FP_ONE, FP_ONE, -4 * FP_ONE);
    assert_eq!(a.dot(&b), b.dot(&a));
    // 21 - 2 - 20 = -1
    assert_eq!(a.dot(&b), -FP_ONE);
}

#[test]
fn cross_is_antisymmetric() {
    let a = Vec3::new(3 * FP_ONE, -2 * FP_ONE, 5 * FP_ONE);
    let b = Vec3::new(7 * FP_ONE, FP_ONE, -4 * FP_ONE);
    assert_eq!(a.cross(&b), b.cross(&a).neg());
    assert_eq!(
        Vec3::right().cross(&Vec3::up()),
        Vec3::forw(),
    );
}

#[test]
fn hadamard_is_componentwise() {
    let a = Vec3::new(FP_ONE / 2, FP_ONE, 2 * FP_ONE);
    let b = Vec3::new(FP_ONE / 2, FP_ONE / 4, 3 * FP_ONE);
    assert_eq!(a.hadamard(&b), Vec3::new(FP_ONE / 4, FP_ONE / 4, 6 * FP_ONE));
}

#[test]
fn magnitude_of_pythagorean_triple_is_exact() {
    let v = Vec3::new(3 * FP_ONE, 4 * FP_ONE, 0);
    assert_eq!(v.magnitude(), 5 * FP_ONE);
    assert_eq!(v.magnitude_squared(), 25 * FP_ONE);
}

#[test]
fn normalise_has_unit_magnitude_within_tolerance() {
    let samples = [
        Vec3::new(3 * FP_ONE, 4 * FP_ONE, 0),
        Vec3::new(FP_ONE, FP_ONE, FP_ONE),
        Vec3::new(-7 * FP_ONE, 2 * FP_ONE, 9 * FP_ONE),
        Vec3::new(12345, -54321, 23456),
    ];
    for v in samples.iter() {
        let n = v.normalise();
        let mag_sq = n.x * n.x + n.y * n.y + n.z * n.z;
        let unit = FP_ONE * FP_ONE;
        assert!(mag_sq >= unit - 7 * FP_ONE, "too short: {mag_sq}");
        assert!(mag_sq <= unit + 8 * FP_ONE, "too long: {mag_sq}");
    }
}

#[test]
fn axis_vectors_normalise_exactly() {
    assert_eq!(Vec3::new(0, 0, 9 * FP_ONE).normalise(), Vec3::forw());
    assert_eq!(Vec3::new(-5 * FP_ONE, 0, 0).normalise(), Vec3::left());
}

#[test]
fn random_range_respects_bounds() {
    let mut rng = RandomSource::from_seed(7);
    for _ in 0..1000 {
        let v = Vec3::random_range(&mut rng, -3 * FP_ONE, 5 * FP_ONE);
        assert!(v.x >= -3 * FP_ONE && v.x < 5 * FP_ONE);
        assert!(v.y >= -3 * FP_ONE && v.y < 5 * FP_ONE);
        assert!(v.z >= -3 * FP_ONE && v.z < 5 * FP_ONE);
    }
}

#[test]
fn random_unit_stays_in_unit_cube() {
    let mut rng = RandomSource::from_seed(11);
    for _ in 0..1000 {
        let v = Vec3::random_unit(&mut rng);
        assert!(v.x >= 0 && v.x < FP_ONE);
        assert!(v.y >= 0 && v.y < FP_ONE);
        assert!(v.z >= 0 && v.z < FP_ONE);
    }
}

#[test]
fn random_in_unit_sphere_is_nearly_unit() {
    let mut rng = RandomSource::from_seed(13);
    let unit = FP_ONE * FP_ONE;
    for _ in 0..2000 {
        let v = Vec3::random_in_unit_sphere(&mut rng);
        let mag_sq = v.x * v.x + v.y * v.y + v.z * v.z;
        assert!(mag_sq >= unit - 7 * FP_ONE);
        assert!(mag_sq <= unit + 8 * FP_ONE);
    }
}

#[test]
fn random_on_hemisphere_never_opposes_normal() {
    let normals = [
        Vec3::up(),
        Vec3::new(3 * FP_ONE, 4 * FP_ONE, 0).normalise(),
        Vec3::new(-FP_ONE, -FP_ONE, -FP_ONE).normalise(),
    ];
    let mut rng = RandomSource::from_seed(17);
    for n in normals.iter() {
        for _ in 0..10_000 {
            let d = Vec3::random_on_hemisphere(&mut rng, *n);
            assert!(d.dot_raw(n) >= 0);
            assert!(d.dot(n) >= 0);
        }
    }
}

#[test]
fn to_colour_has_exact_gamma_values() {
    // full white radiance at one sample: every channel saturates at 255
    let white = Vec3::new(FP_ONE, FP_ONE, FP_ONE);
    assert_eq!(white.to_colour(1), [255, 255, 255]);
    // a quarter of full radiance gamma-corrects to one half: 128
    let quarter = Vec3::new(FP_ONE / 4, FP_ONE / 4, FP_ONE / 4);
    assert_eq!(quarter.to_colour(1), [128, 128, 128]);
    // averaging: the same radiance over four samples
    assert_eq!(white.to_colour(4), [128, 128, 128]);
    // zero radiance is black
    assert_eq!(Vec3::zero().to_colour(1), [0, 0, 0]);
    // radiance beyond one clamps instead of wrapping
    let hot = Vec3::new(100 * FP_ONE, 100 * FP_ONE, 100 * FP_ONE);
    assert_eq!(hot.to_colour(1), [255, 255, 255]);
    // negative radiance clamps to zero, never wraps
    let cold = Vec3::new(-FP_ONE, -1, FP_ONE / 4);
    assert_eq!(cold.to_colour(1), [0, 0, 128]);
    assert_eq!(cold.to_colour(7), [0, 0, 48]);
}

#[test]
fn to_colour_is_monotonic_per_channel() {
    let mut previous: u8 = 0;
    let mut s: i64 = -FP_ONE;
    while s <= 2 * FP_ONE {
        let c = Vec3::new(s, 0, 0).to_colour(1);
        assert!(c[0] >= previous);
        previous = c[0];
        s += 1234;
    }
}
