use pathtracer::camera::Camera;
use pathtracer::fixed::SCALE;
use pathtracer::hittable::T_LIMIT;
use pathtracer::hittable_list::HittableList;
use pathtracer::material::{Lambertian, Material, Metal};
use pathtracer::rng::RandomSource;
use pathtracer::sphere::Sphere;
use pathtracer::tracer::{render, render_parallel, RenderError};
use pathtracer::vec3::Vec3;

fn simple_camera() -> Camera {
    // at the origin, looking down the negative z axis: a 90 degree vertical
    // field of view (tangent of the half angle is one) over a 2:1 viewport
    Camera::new(
        Vec3::new(0, 0, 0),
        Vec3::new(0, 0, -SCALE),
        Vec3::new(0, SCALE, 0),
        SCALE,
        2 * SCALE,
        0,
        SCALE,
    )
    .expect("valid configuration")
}

fn one_sphere_world() -> HittableList {
    let mat = Material::Metal(Metal::new(Vec3::new(500_000, 500_000, 500_000), 0));
    HittableList::new().push(Sphere::new(Vec3::new(0, 0, -SCALE), 500_000, mat))
}

#[test]
fn degenerate_configurations_are_rejected() {
    let p = Vec3::new(0, 0, 0);
    let up = Vec3::new(0, SCALE, 0);
    // coincident eye and target
    assert!(Camera::new(p, p, up, SCALE, 2 * SCALE, 0, SCALE).is_none());
    // up vector parallel to the view direction
    let target = Vec3::new(0, -SCALE, 0);
    assert!(Camera::new(p, target, up, SCALE, 2 * SCALE, 0, SCALE).is_none());
    // zero field of view
    assert!(Camera::new(p, Vec3::new(0, 0, -SCALE), up, 0, 2 * SCALE, 0, SCALE).is_none());
}

#[test]
fn center_ray_hits_the_axis_sphere() {
    let cam = simple_camera();
    let world = one_sphere_world();
    let mut rng = RandomSource::from_seed(8);
    // the pixel at the exact center of the viewport
    let ray = cam.get_ray(500_000, 500_000, &mut rng);
    assert_eq!(ray.origin, Vec3::new(0, 0, 0));
    assert_eq!(ray.direction, Vec3::new(0, 0, -SCALE));
    let rec = world.hit(&ray, 1_000, T_LIMIT).expect("axis intersection");
    assert_eq!(rec.t, 500_000);
    assert_eq!(rec.normal, Vec3::new(0, 0, SCALE));
}

#[test]
fn pinhole_camera_rays_are_deterministic() {
    let cam = simple_camera();
    let mut rng_a = RandomSource::from_seed(1);
    let mut rng_b = RandomSource::from_seed(999);
    // with a zero aperture the drawn lens sample has no effect
    let a = cam.get_ray(250_000, 750_000, &mut rng_a);
    let b = cam.get_ray(250_000, 750_000, &mut rng_b);
    assert_eq!(a.origin, b.origin);
    assert_eq!(a.direction, b.direction);
}

#[test]
fn render_rejects_unusable_configurations() {
    let cam = simple_camera();
    let world = one_sphere_world();
    assert_eq!(render(&world, &cam, 0, 2, 1, 5, 42), Err(RenderError::BadConfig));
    assert_eq!(render(&world, &cam, 4, 1, 1, 5, 42), Err(RenderError::BadConfig));
    assert_eq!(render(&world, &cam, 4, 2, 0, 5, 42), Err(RenderError::BadConfig));
}

#[test]
fn render_produces_row_major_pixels() {
    let cam = simple_camera();
    let world = one_sphere_world();
    let pixels = render(&world, &cam, 6, 4, 2, 5, 42).expect("small render");
    assert_eq!(pixels.len(), 24);
}

#[test]
fn seeded_renders_are_reproducible() {
    let cam = simple_camera();
    let world = one_sphere_world();
    let first = render(&world, &cam, 6, 4, 3, 8, 1234).expect("first render");
    let second = render(&world, &cam, 6, 4, 3, 8, 1234).expect("second render");
    assert_eq!(first, second);
}

#[test]
fn parallel_render_matches_the_sequential_one() {
    let mat = Material::Lambertian(Lambertian::new(Vec3::new(400_000, 200_000, 100_000)));
    let world = HittableList::new()
        .push(Sphere::new(Vec3::new(0, 0, -SCALE), 500_000, mat))
        .push(Sphere::new(Vec3::new(0, -100_500_000, -SCALE), 100_000_000, mat));
    let cam = simple_camera();
    let sequential = render(&world, &cam, 8, 4, 4, 10, 77).expect("sequential render");
    let parallel = render_parallel(&world, &cam, 8, 4, 4, 10, 77).expect("parallel render");
    assert_eq!(sequential, parallel);
}
