use pathtracer::fixed::SCALE;
use pathtracer::hittable::T_LIMIT;
use pathtracer::material::{Lambertian, Material};
use pathtracer::ray::Ray;
use pathtracer::sphere::Sphere;
use pathtracer::vec3::Vec3;

fn gray() -> Material {
    Material::Lambertian(Lambertian::new(Vec3::new(500_000, 500_000, 500_000)))
}

#[test]
fn ray_through_center_hits_symmetric_roots() {
    // center two units down the axis, radius one half: roots at 1.5 and 2.5
    let s = Sphere::new(Vec3::new(0, 0, -2_000_000), 500_000, gray());
    let r = Ray::new(Vec3::new(0, 0, 0), Vec3::new(0, 0, -SCALE));
    let near = s.hit(&r, 1_000, T_LIMIT).expect("front intersection");
    assert_eq!(near.t, 1_500_000);
    // excluding the first root exposes the far one
    let far = s.hit(&r, 1_600_000, T_LIMIT).expect("back intersection");
    assert_eq!(far.t, 2_500_000);
    // the midpoint of the roots is the center's projection onto the ray
    assert_eq!((near.t + far.t) / 2, 2_000_000);
}

#[test]
fn ray_aimed_away_never_hits() {
    let s = Sphere::new(Vec3::new(0, 0, -2_000_000), 500_000, gray());
    // from the origin, looking away from the sphere
    let r = Ray::new(Vec3::new(0, 0, 0), Vec3::new(0, 0, SCALE));
    assert!(s.hit(&r, 1_000, T_LIMIT).is_none());
    assert!(s.hit(&r, 1_000, 10 * SCALE).is_none());
    // from beyond the sphere, still moving away
    let r2 = Ray::new(Vec3::new(0, 0, 5_000_000), Vec3::new(0, 0, SCALE));
    assert!(s.hit(&r2, 1_000, T_LIMIT).is_none());
}

#[test]
fn axis_ray_hits_half_radius_sphere() {
    // the sphere of radius 0.5 at (0, 0, -1), seen from the origin
    let s = Sphere::new(Vec3::new(0, 0, -SCALE), 500_000, gray());
    let r = Ray::new(Vec3::new(0, 0, 0), Vec3::new(0, 0, -SCALE));
    let rec = s.hit(&r, 1_000, T_LIMIT).expect("center ray intersection");
    assert_eq!(rec.t, 500_000);
    assert_eq!(rec.normal, Vec3::new(0, 0, SCALE));
    assert!(rec.front_face);
    assert_eq!(rec.p, Vec3::new(0, 0, -500_000));
}

#[test]
fn offset_ray_misses() {
    let s = Sphere::new(Vec3::new(0, 0, -2_000_000), 500_000, gray());
    let r = Ray::new(Vec3::new(2_000_000, 0, 0), Vec3::new(0, 0, -SCALE));
    assert!(s.hit(&r, 1_000, T_LIMIT).is_none());
}

#[test]
fn negative_radius_flips_the_normal() {
    // an inverted shell: the outward normal points toward the center
    let s = Sphere::new(Vec3::new(0, 0, -SCALE), -500_000, gray());
    let r = Ray::new(Vec3::new(0, 0, 0), Vec3::new(0, 0, -SCALE));
    let rec = s.hit(&r, 1_000, T_LIMIT).expect("shell intersection");
    assert_eq!(rec.t, 500_000);
    // the scaled outward normal points at the ray, so the ray sees a back face
    assert!(!rec.front_face);
    assert_eq!(rec.normal, Vec3::new(0, 0, SCALE));
}

#[test]
fn window_excluding_both_roots_misses() {
    let s = Sphere::new(Vec3::new(0, 0, -2_000_000), 500_000, gray());
    let r = Ray::new(Vec3::new(0, 0, 0), Vec3::new(0, 0, -SCALE));
    assert!(s.hit(&r, 1_000, 1_000_000).is_none());
    assert!(s.hit(&r, 2_600_000, T_LIMIT).is_none());
}
