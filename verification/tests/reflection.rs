use pathtracer::fixed::SCALE;
use pathtracer::ray::{reflect, refract};
use pathtracer::vec3::Vec3;

#[test]
fn reflect_about_axis_normal() {
    let v = Vec3::new(300_000, -400_000, 900_000);
    let n = Vec3::new(0, 0, SCALE);
    assert_eq!(reflect(&v, &n), Vec3::new(300_000, -400_000, -900_000));
}

#[test]
fn reflect_preserves_length_and_negates_normal_component() {
    // n = (0.6, 0.8, 0) is exactly unit in fixed point
    let n = Vec3::new(600_000, 800_000, 0);
    assert_eq!(n.norm(), SCALE);
    let v = Vec3::new(SCALE, 0, 0);
    let r = reflect(&v, &n);
    // v - 2 (v.n) n = (1 - 0.72, -0.96, 0)
    assert_eq!(r, Vec3::new(280_000, -960_000, 0));
    // the squared norm is preserved exactly
    assert_eq!(r.norm(), v.norm());
    // angle of incidence equals angle of reflection
    assert_eq!(r.dot(&n), -v.dot(&n));
}

#[test]
fn refract_bends_toward_the_surface() {
    // entering a denser medium at eta = 0.5
    let uv = Vec3::new(600_000, -800_000, 0);
    let n = Vec3::new(0, SCALE, 0);
    let r = refract(&uv, &n, 500_000);
    // perpendicular part (0.3, 0, 0); parallel part -sqrt(0.91) n
    assert_eq!(r, Vec3::new(300_000, -953_939, 0));
}

#[test]
fn refract_round_trip_recovers_direction() {
    let uv = Vec3::new(600_000, -800_000, 0);
    let n = Vec3::new(0, SCALE, 0);
    let once = refract(&uv, &n, 500_000);
    let back = refract(&once, &n, 2_000_000);
    // the rounding cancels on this configuration: the round trip is exact
    assert_eq!(back, uv);
}

#[test]
fn refract_round_trip_within_tolerance() {
    // a configuration whose square roots do not come out exact
    let uv = Vec3::new(500_000, -866_025, 0);
    let n = Vec3::new(0, SCALE, 0);
    let once = refract(&uv, &n, 666_666);
    let back = refract(&once, &n, 1_500_000);
    assert!((back.x - uv.x).abs() <= 10, "x came back as {}", back.x);
    assert!((back.y - uv.y).abs() <= 10, "y came back as {}", back.y);
    assert!((back.z - uv.z).abs() <= 10, "z came back as {}", back.z);
}

#[test]
fn refract_normal_incidence_is_identity() {
    let n = Vec3::new(0, 0, SCALE);
    let uv = n.neg();
    for eta in [500_000i64, 666_666, 1_500_000, 2_400_000] {
        assert_eq!(refract(&uv, &n, eta), uv);
    }
}
