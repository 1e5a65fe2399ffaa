use pathtracer::fixed::SCALE;
use pathtracer::rng::RandomSource;
use pathtracer::vec3::Vec3;

#[test]
fn componentwise_arithmetic() {
    let a = Vec3::new(1_000_000, 2_000_000, 3_000_000);
    let b = Vec3::new(500_000, -500_000, 1_500_000);
    assert_eq!(a.add(&b), Vec3::new(1_500_000, 1_500_000, 4_500_000));
    assert_eq!(a.sub(&b), Vec3::new(500_000, 2_500_000, 1_500_000));
    assert_eq!(a.neg(), Vec3::new(-1_000_000, -2_000_000, -3_000_000));
    assert_eq!(a.scale(500_000), Vec3::new(500_000, 1_000_000, 1_500_000));
    assert_eq!(a.comp_mul(&b), Vec3::new(500_000, -1_000_000, 4_500_000));
    assert_eq!(a.div_scalar(2_000_000), Vec3::new(500_000, 1_000_000, 1_500_000));
}

#[test]
fn dot_and_cross() {
    let a = Vec3::new(1_000_000, 2_000_000, 3_000_000);
    let b = Vec3::new(4_000_000, 5_000_000, 6_000_000);
    // 1*4 + 2*5 + 3*6 == 32
    assert_eq!(a.dot(&b), 32_000_000);
    let x = Vec3::new(SCALE, 0, 0);
    let y = Vec3::new(0, SCALE, 0);
    assert_eq!(x.cross(&y), Vec3::new(0, 0, SCALE));
    assert_eq!(y.cross(&x), Vec3::new(0, 0, -SCALE));
}

#[test]
fn norm_length_normalize() {
    let v = Vec3::new(3_000_000, 4_000_000, 0);
    assert_eq!(v.norm(), 25_000_000);
    assert_eq!(v.length(), 5_000_000);
    assert_eq!(v.normalize(), Vec3::new(600_000, 800_000, 0));
}

#[test]
fn near_zero_is_exact_zero() {
    assert!(Vec3::new(0, 0, 0).near_zero());
    assert!(!Vec3::new(1, 0, 0).near_zero());
    assert!(!Vec3::new(0, 0, -1).near_zero());
}

#[test]
fn random_range_within_bounds() {
    let mut rng = RandomSource::from_seed(7);
    for _ in 0..100 {
        let v = Vec3::vec3_random_range(&mut rng, -2_000_000, 2_000_000);
        assert!(-2_000_000 <= v.x && v.x < 2_000_000);
        assert!(-2_000_000 <= v.y && v.y < 2_000_000);
        assert!(-2_000_000 <= v.z && v.z < 2_000_000);
    }
}

#[test]
fn unit_sphere_samples_inside_ball() {
    let mut rng = RandomSource::from_seed(11);
    for _ in 0..100 {
        let p = Vec3::random_in_unit_sphere(&mut rng);
        let ns = p.norm();
        assert!(1 <= ns && ns < SCALE);
    }
}

#[test]
fn unit_vectors_have_unit_norm() {
    let mut rng = RandomSource::from_seed(13);
    for _ in 0..100 {
        let u = Vec3::random_unit_vector(&mut rng);
        let ns = u.norm();
        // unit up to fixed-point rounding
        assert!((ns - SCALE).abs() <= 5_000, "norm_sq was {}", ns);
    }
}

#[test]
fn hemisphere_samples_face_the_reference() {
    let mut rng = RandomSource::from_seed(17);
    let n = Vec3::new(0, 0, SCALE);
    for _ in 0..100 {
        let p = n.random_in_hemisphere(&mut rng);
        assert!(p.z >= 0);
        let ns = p.norm();
        assert!(1 <= ns && ns < SCALE);
    }
}

#[test]
fn unit_disk_samples_flat_and_inside() {
    let mut rng = RandomSource::from_seed(19);
    for _ in 0..100 {
        let p = Vec3::random_in_unit_disk(&mut rng);
        assert_eq!(p.z, 0);
        assert!(p.norm() < SCALE);
    }
}
