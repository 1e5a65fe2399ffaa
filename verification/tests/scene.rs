use pathtracer::fixed::SCALE;
use pathtracer::hittable::T_LIMIT;
use pathtracer::hittable_list::HittableList;
use pathtracer::material::{Lambertian, Material};
use pathtracer::ray::Ray;
use pathtracer::sphere::Sphere;
use pathtracer::vec3::Vec3;

fn gray() -> Material {
    Material::Lambertian(Lambertian::new(Vec3::new(500_000, 500_000, 500_000)))
}

#[test]
fn empty_scene_has_no_hit() {
    let world = HittableList::new();
    let r = Ray::new(Vec3::new(0, 0, 0), Vec3::new(0, 0, -SCALE));
    assert!(world.hit(&r, 1_000, T_LIMIT).is_none());
}

#[test]
fn closest_hit_wins_regardless_of_order() {
    let near = Sphere::new(Vec3::new(0, 0, -2_000_000), 500_000, gray());
    let far = Sphere::new(Vec3::new(0, 0, -5_000_000), 500_000, gray());
    let r = Ray::new(Vec3::new(0, 0, 0), Vec3::new(0, 0, -SCALE));

    let world_a = HittableList::new().push(near).push(far);
    let rec_a = world_a.hit(&r, 1_000, T_LIMIT).expect("hit in near-first order");
    assert_eq!(rec_a.t, 1_500_000);

    let world_b = HittableList::new().push(far).push(near);
    let rec_b = world_b.hit(&r, 1_000, T_LIMIT).expect("hit in far-first order");
    assert_eq!(rec_b.t, 1_500_000);
}

#[test]
fn occluded_sphere_is_reachable_with_a_narrow_window() {
    let near = Sphere::new(Vec3::new(0, 0, -2_000_000), 500_000, gray());
    let far = Sphere::new(Vec3::new(0, 0, -5_000_000), 500_000, gray());
    let world = HittableList::new().push(near).push(far);
    let r = Ray::new(Vec3::new(0, 0, 0), Vec3::new(0, 0, -SCALE));
    // past both roots of the near sphere, the far one is the closest hit
    let rec = world.hit(&r, 3_000_000, T_LIMIT).expect("far sphere");
    assert_eq!(rec.t, 4_500_000);
}

#[test]
fn all_spheres_missed_gives_none() {
    let a = Sphere::new(Vec3::new(0, 0, -2_000_000), 500_000, gray());
    let b = Sphere::new(Vec3::new(0, 3_000_000, 0), 500_000, gray());
    let world = HittableList::new().push(a).push(b);
    let r = Ray::new(Vec3::new(0, 0, 0), Vec3::new(0, 0, SCALE));
    assert!(world.hit(&r, 1_000, T_LIMIT).is_none());
}
