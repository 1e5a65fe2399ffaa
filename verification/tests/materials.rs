use pathtracer::fixed::SCALE;
use pathtracer::hittable::HitRecord;
use pathtracer::material::{
    dielectric_direction, lambertian_direction, metal_direction, reflectance, Dielectrics,
    Lambertian, Material, Metal, UninitMaterial,
};
use pathtracer::ray::{reflect, Ray};
use pathtracer::rng::RandomSource;
use pathtracer::vec3::Vec3;

fn record_at_origin(normal: Vec3, front_face: bool, material: Material) -> HitRecord {
    HitRecord { p: Vec3::new(0, 0, 0), normal, material, t: SCALE, front_face }
}

#[test]
fn lambertian_fallback_on_cancelling_sample() {
    // a drawn unit vector exactly opposite the normal forces the fallback
    let n = Vec3::new(0, 0, SCALE);
    let d = lambertian_direction(&n, &n.neg());
    assert_eq!(d, n);
}

#[test]
fn lambertian_direction_is_normal_plus_sample() {
    let n = Vec3::new(0, 0, SCALE);
    let u = Vec3::new(600_000, 800_000, 0);
    assert_eq!(lambertian_direction(&n, &u), Vec3::new(600_000, 800_000, SCALE));
}

#[test]
fn lambertian_scatter_always_some() {
    let albedo = Vec3::new(100_000, 200_000, 300_000);
    let mat = Lambertian::new(albedo);
    let rec = record_at_origin(Vec3::new(0, 0, SCALE), true, Material::Lambertian(mat));
    let r_in = Ray::new(Vec3::new(0, 0, SCALE), Vec3::new(0, 0, -SCALE));
    let mut rng = RandomSource::from_seed(5);
    for _ in 0..50 {
        let (att, scattered) = mat.scatter(&r_in, &rec, &mut rng).expect("always scatters");
        assert_eq!(att, albedo);
        assert_eq!(scattered.origin, rec.p);
        assert!(!scattered.direction.near_zero());
    }
}

#[test]
fn metal_with_zero_fuzz_is_a_mirror() {
    let unit_in = Vec3::new(707_106, 0, -707_106);
    let n = Vec3::new(0, 0, SCALE);
    let smp = Vec3::new(123_456, -654_321, 42);
    // whatever the sample, zero fuzz leaves exactly the reflection
    let d = metal_direction(&unit_in, &n, 0, &smp);
    assert_eq!(d, reflect(&unit_in, &n));
    assert_eq!(d, Vec3::new(707_106, 0, 707_106));
}

#[test]
fn metal_scatter_mirror_attenuation_independent_of_angle() {
    let albedo = Vec3::new(700_000, 600_000, 500_000);
    let mat = Metal::new(albedo, 0);
    let rec = record_at_origin(Vec3::new(0, 0, SCALE), true, Material::Metal(mat));
    let mut rng = RandomSource::from_seed(9);
    for dir in [
        Vec3::new(SCALE, 0, -SCALE),
        Vec3::new(0, SCALE, -SCALE),
        Vec3::new(250_000, -250_000, -SCALE),
    ] {
        let r_in = Ray::new(Vec3::new(0, 0, SCALE), dir);
        let (att, scattered) = mat.scatter(&r_in, &rec, &mut rng).expect("mirror reflects");
        assert_eq!(att, albedo);
        let expected = reflect(&r_in.direction.normalize(), &rec.normal);
        assert_eq!(scattered.direction, expected);
    }
}

#[test]
fn metal_absorbs_reflections_into_the_surface() {
    let mat = Metal::new(Vec3::new(500_000, 500_000, 500_000), 0);
    let rec = record_at_origin(Vec3::new(0, 0, SCALE), true, Material::Metal(mat));
    // incoming along the normal: the reflection points into the surface
    let r_in = Ray::new(Vec3::new(0, 0, -SCALE), Vec3::new(0, 0, SCALE));
    let mut rng = RandomSource::from_seed(3);
    assert!(mat.scatter(&r_in, &rec, &mut rng).is_none());
}

#[test]
fn metal_fuzz_is_clamped_at_construction() {
    let albedo = Vec3::new(500_000, 500_000, 500_000);
    assert_eq!(Metal::new(albedo, 2_000_000).fuzz, SCALE);
    assert_eq!(Metal::new(albedo, -300_000).fuzz, 0);
    assert_eq!(Metal::new(albedo, 250_000).fuzz, 250_000);
}

#[test]
fn schlick_reflectance_exact_values() {
    // at normal incidence with eta = 1/1.5: ((1 - eta) / (1 + eta))^2
    assert_eq!(reflectance(SCALE, 666_666), 40_000);
    // at grazing incidence the reflectance reaches one
    assert_eq!(reflectance(0, 1_500_000), SCALE);
}

#[test]
fn dielectric_total_internal_reflection() {
    // inside the dense medium, grazing: eta sin(theta) = 1.5 * 0.8 > 1
    let unit_in = Vec3::new(800_000, -600_000, 0);
    let n = Vec3::new(0, SCALE, 0);
    for draw in [0i64, 500_000, 999_999] {
        let d = dielectric_direction(&unit_in, &n, 1_500_000, draw);
        assert_eq!(d, Vec3::new(800_000, 600_000, 0));
    }
}

#[test]
fn dielectric_draw_decides_between_reflection_and_refraction() {
    // normal incidence into glass: reflectance is 0.04
    let n = Vec3::new(0, 0, SCALE);
    let unit_in = n.neg();
    let refracted = dielectric_direction(&unit_in, &n, 666_666, 999_999);
    assert_eq!(refracted, unit_in);
    let reflected = dielectric_direction(&unit_in, &n, 666_666, 0);
    assert_eq!(reflected, n);
}

#[test]
fn dielectric_scatter_is_white_and_never_absorbs() {
    let mat = Dielectrics::new(1_500_000);
    let rec = record_at_origin(Vec3::new(0, 0, SCALE), true, Material::Dielectric(mat));
    let r_in = Ray::new(Vec3::new(0, 0, SCALE), Vec3::new(100_000, 0, -SCALE));
    let mut rng = RandomSource::from_seed(21);
    for _ in 0..50 {
        let (att, scattered) = mat.scatter(&r_in, &rec, &mut rng).expect("never absorbs");
        assert_eq!(att, Vec3::new(SCALE, SCALE, SCALE));
        assert_eq!(scattered.origin, rec.p);
    }
}

#[test]
fn uninit_material_absorbs_everything() {
    let mat = UninitMaterial {};
    let rec = record_at_origin(
        Vec3::new(0, 0, SCALE),
        true,
        Material::Uninit(UninitMaterial {}),
    );
    let r_in = Ray::new(Vec3::new(0, 0, SCALE), Vec3::new(0, 0, -SCALE));
    assert!(mat.scatter(&r_in, &rec).is_none());
}
