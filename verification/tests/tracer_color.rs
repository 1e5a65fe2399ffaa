use pathtracer::color::{color_to_bytes, Rgb};
use pathtracer::fixed::SCALE;
use pathtracer::hittable_list::HittableList;
use pathtracer::material::{Lambertian, Material, UninitMaterial};
use pathtracer::ray::Ray;
use pathtracer::rng::RandomSource;
use pathtracer::sphere::Sphere;
use pathtracer::tracer::ray_color;
use pathtracer::vec3::Vec3;

fn gray() -> Material {
    Material::Lambertian(Lambertian::new(Vec3::new(500_000, 500_000, 500_000)))
}

#[test]
fn zero_depth_is_exactly_black() {
    let world = HittableList::new().push(Sphere::new(Vec3::new(0, 0, -SCALE), 500_000, gray()));
    let mut rng = RandomSource::from_seed(1);
    for dir in [Vec3::new(0, 0, -SCALE), Vec3::new(SCALE, SCALE, SCALE)] {
        let r = Ray::new(Vec3::new(0, 0, 0), dir);
        let c = ray_color(&r, &world, &mut rng, 0).expect("no fault at depth zero");
        assert_eq!(c, Vec3::new(0, 0, 0));
    }
}

#[test]
fn horizontal_ray_sees_the_even_background_blend() {
    let world = HittableList::new();
    let mut rng = RandomSource::from_seed(2);
    for dir in [Vec3::new(SCALE, 0, 0), Vec3::new(0, 0, -3_000_000), Vec3::new(-SCALE, 0, SCALE)] {
        let r = Ray::new(Vec3::new(0, 0, 0), dir);
        let c = ray_color(&r, &world, &mut rng, 10).expect("background never faults");
        assert_eq!(c, Vec3::new(750_000, 850_000, SCALE));
    }
}

#[test]
fn vertical_ray_sees_pure_sky_blue() {
    let world = HittableList::new();
    let mut rng = RandomSource::from_seed(3);
    let r = Ray::new(Vec3::new(0, 0, 0), Vec3::new(0, SCALE, 0));
    let c = ray_color(&r, &world, &mut rng, 10).expect("background never faults");
    assert_eq!(c, Vec3::new(500_000, 700_000, SCALE));
}

#[test]
fn absorbing_hit_is_black() {
    let absorber = Material::Uninit(UninitMaterial {});
    let world = HittableList::new().push(Sphere::new(Vec3::new(0, 0, -SCALE), 500_000, absorber));
    let mut rng = RandomSource::from_seed(4);
    let r = Ray::new(Vec3::new(0, 0, 0), Vec3::new(0, 0, -SCALE));
    let c = ray_color(&r, &world, &mut rng, 10).expect("absorption is not a fault");
    assert_eq!(c, Vec3::new(0, 0, 0));
}

#[test]
fn traced_colors_stay_in_range() {
    let world = HittableList::new().push(Sphere::new(Vec3::new(0, 0, -SCALE), 500_000, gray()));
    let mut rng = RandomSource::from_seed(5);
    for _ in 0..50 {
        let r = Ray::new(Vec3::new(0, 0, 0), Vec3::new(0, 0, -SCALE));
        let c = ray_color(&r, &world, &mut rng, 8).expect("diffuse bounce traces");
        assert!(0 <= c.x && c.x <= SCALE);
        assert!(0 <= c.y && c.y <= SCALE);
        assert!(0 <= c.z && c.z <= SCALE);
    }
}

#[test]
fn gamma_bytes_of_exact_channels() {
    // one sample: 0.25 averages to itself, sqrt is 0.5, byte 127
    let sum = Vec3::new(250_000, SCALE, 0);
    assert_eq!(color_to_bytes(&sum, 1), Rgb { r: 127, g: 255, b: 0 });
    // four samples summing to 4.0 average to 1.0: full intensity
    let sum4 = Vec3::new(4_000_000, 1_000_000, 0);
    assert_eq!(color_to_bytes(&sum4, 4), Rgb { r: 255, g: 127, b: 0 });
}
