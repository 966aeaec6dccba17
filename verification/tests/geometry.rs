use pathtracer::cameras::SimpleCamera;
use pathtracer::fixed::{sqrt_floor_i128, EPS_T, SCALE, T_LIMIT};
use pathtracer::hittables::{Hittables, Sphere};
use pathtracer::materials::{Material, Reflectance};
use pathtracer::ray::Ray;
use pathtracer::vec3::{clamp, Vec3};
use rand::SeedableRng;

fn rng_with(seed: u64) -> rand::rngs::StdRng {
    rand::rngs::StdRng::seed_from_u64(seed)
}

fn diffuse_material() -> Material {
    Material::new()
        .reflectance(Reflectance::Diffuse)
        .scattering_p(SCALE)
        .roughness(SCALE)
        .color(Vec3(70_000, 30_000, 30_000))
        .finalize()
}

#[test]
fn vector_arithmetic_is_exact() {
    let a = Vec3(100_000, 200_000, -300_000);
    let b = Vec3(50_000, -50_000, 100_000);
    let s = a.add(&b);
    assert_eq!(s, Vec3(150_000, 150_000, -200_000));
    let d = a.sub(&b);
    assert_eq!(d, Vec3(50_000, 250_000, -400_000));
    let m = a.mul(&b);
    assert_eq!(m, Vec3(50_000, -100_000, -300_000));
    let k = a.scale(200_000);
    assert_eq!(k, Vec3(200_000, 400_000, -600_000));
    let h = a.div_count(2);
    assert_eq!(h, Vec3(50_000, 100_000, -150_000));
}

#[test]
fn dot_and_cross_products() {
    let x = Vec3(SCALE, 0, 0);
    let y = Vec3(0, SCALE, 0);
    let z = Vec3(0, 0, SCALE);
    assert_eq!(x.dot(&y), 0);
    assert_eq!(x.dot(&x), SCALE);
    assert_eq!(x.cross(&y), z);
    assert_eq!(y.cross(&z), x);
    assert_eq!(z.cross(&x), y);
    let a = Vec3(100_000, 200_000, 300_000);
    let b = Vec3(400_000, 500_000, 600_000);
    // 1*4 + 2*5 + 3*6 = 32
    assert_eq!(a.dot(&b), 3_200_000);
}

#[test]
fn length_of_three_four_zero_is_five() {
    let v = Vec3(300_000, 400_000, 0);
    assert_eq!(v.length_squared(), 2_500_000);
    assert_eq!(v.length(), 500_000);
}

#[test]
fn unit_vector_of_axis_vectors() {
    let v = Vec3(0, -SCALE, 0);
    assert_eq!(v.unit_vector(), Vec3(0, -SCALE, 0));
    let w = Vec3(200_000, 0, 0);
    assert_eq!(w.unit_vector(), Vec3(SCALE, 0, 0));
}

#[test]
fn sqrt_floor_small_values() {
    assert_eq!(sqrt_floor_i128(0), 0);
    assert_eq!(sqrt_floor_i128(1), 1);
    assert_eq!(sqrt_floor_i128(24), 4);
    assert_eq!(sqrt_floor_i128(25), 5);
    assert_eq!(sqrt_floor_i128(10_000_000_000), 100_000);
}

#[test]
fn clamp_behaves_at_the_edges() {
    assert_eq!(clamp(150_000, 0, SCALE), SCALE);
    assert_eq!(clamp(-1, 0, SCALE), 0);
    assert_eq!(clamp(42, 0, SCALE), 42);
}

#[test]
fn pixel_conversion_clamps_and_scales() {
    assert_eq!(Vec3(SCALE, 0, 50_000).as_pixel(), (255, 0, 127));
    assert_eq!(Vec3(2 * SCALE, -SCALE, SCALE).as_pixel(), (255, 0, 255));
}

#[test]
fn color_string_formats_channels() {
    assert_eq!(Vec3(SCALE, 0, 50_000).color_string(), "255 0 127");
    assert_eq!(Vec3(0, 0, 0).color_string(), "0 0 0");
}

#[test]
fn ray_at_advances_linearly() {
    let r = Ray { origin: Vec3(100_000, 0, 0), direction: Vec3(0, 0, -SCALE) };
    assert_eq!(r.at(50_000), Vec3(100_000, 0, -50_000));
    assert_eq!(r.at(0), Vec3(100_000, 0, 0));
}

#[test]
fn sphere_through_center_reports_near_root() {
    // A unit ray from the origin through the center of a sphere of radius
    // 0.5 at distance 1: the reported parameter is 1 - 0.5 = 0.5.
    let s = Sphere { center: Vec3(0, 0, -SCALE), radius: 50_000, material: diffuse_material() };
    let r = Ray { origin: Vec3(0, 0, 0), direction: Vec3(0, 0, -SCALE) };
    let mut rng = rng_with(1);
    let hit = s.hits(&mut rng, r, EPS_T, T_LIMIT);
    assert!(hit.is_some());
    assert_eq!(hit.unwrap().time, 50_000);
}

#[test]
fn sphere_behind_ray_misses() {
    // Origin outside the sphere, direction pointing away from it.
    let s = Sphere { center: Vec3(0, 0, -SCALE), radius: 50_000, material: diffuse_material() };
    let r = Ray { origin: Vec3(0, 0, 0), direction: Vec3(0, 0, SCALE) };
    let mut rng = rng_with(1);
    assert!(s.hits(&mut rng, r, EPS_T, T_LIMIT).is_none());
}

#[test]
fn tangent_ray_is_a_miss() {
    // The ray grazes the sphere exactly: discriminant zero, treated as miss.
    let s = Sphere { center: Vec3(0, 0, -SCALE), radius: 50_000, material: diffuse_material() };
    let r = Ray { origin: Vec3(50_000, 0, 0), direction: Vec3(0, 0, -SCALE) };
    let mut rng = rng_with(1);
    assert!(s.hits(&mut rng, r, EPS_T, T_LIMIT).is_none());
}

#[test]
fn lower_cutoff_excludes_origin_contact() {
    // A ray starting on the surface pointing inward: the near root is 0,
    // below t_min, so the far root (the diameter) is reported.
    let s = Sphere { center: Vec3(0, 0, -SCALE), radius: 50_000, material: diffuse_material() };
    let r = Ray { origin: Vec3(0, 0, -50_000), direction: Vec3(0, 0, -SCALE) };
    let mut rng = rng_with(1);
    let hit = s.hits(&mut rng, r, EPS_T, T_LIMIT);
    assert!(hit.is_some());
    assert_eq!(hit.unwrap().time, 100_000);
}

#[test]
fn scene_returns_nearest_hit() {
    let mut world = Hittables::new();
    world.push(Sphere { center: Vec3(0, 0, -2 * SCALE), radius: 50_000, material: diffuse_material() });
    world.push(Sphere { center: Vec3(0, 0, -SCALE), radius: 50_000, material: diffuse_material() });
    let r = Ray { origin: Vec3(0, 0, 0), direction: Vec3(0, 0, -SCALE) };
    let mut rng = rng_with(1);
    let hit = world.hits(&mut rng, r, EPS_T, T_LIMIT);
    assert!(hit.is_some());
    assert_eq!(hit.unwrap().time, 50_000);
}

#[test]
fn empty_scene_never_hits() {
    let world = Hittables::new();
    let r = Ray { origin: Vec3(0, 0, 0), direction: Vec3(0, 0, -SCALE) };
    let mut rng = rng_with(1);
    assert!(world.hits(&mut rng, r, EPS_T, T_LIMIT).is_none());
}

#[test]
fn camera_maps_screen_center() {
    let camera = SimpleCamera {
        lower_left_corner: Vec3(-2 * SCALE, -SCALE, -SCALE),
        horizontal: Vec3(4 * SCALE, 0, 0),
        vertical: Vec3(0, 2 * SCALE, 0),
        origin: Vec3(0, 0, 0),
    };
    let r = camera.get_ray(50_000, 50_000);
    assert_eq!(r.origin, Vec3(0, 0, 0));
    assert_eq!(r.direction, Vec3(0, 0, -SCALE));
}

#[test]
fn same_screen_coordinates_same_hit_whatever_resolution() {
    // u = (i + jitter)/width: index 100 of 200 columns and index 200 of 400
    // columns land on the same u, and the intersection outcome agrees.
    let camera = SimpleCamera {
        lower_left_corner: Vec3(-2 * SCALE, -SCALE, -SCALE),
        horizontal: Vec3(4 * SCALE, 0, 0),
        vertical: Vec3(0, 2 * SCALE, 0),
        origin: Vec3(0, 0, 0),
    };
    let u1 = (100 * SCALE) / 200;
    let v1 = (50 * SCALE) / 100;
    let u2 = (200 * SCALE) / 400;
    let v2 = (100 * SCALE) / 200;
    assert_eq!(u1, u2);
    assert_eq!(v1, v2);
    let r1 = camera.get_ray(u1, v1);
    let r2 = camera.get_ray(u2, v2);
    assert_eq!(r1, r2);
    let s = Sphere { center: Vec3(0, 0, -SCALE), radius: 50_000, material: diffuse_material() };
    let mut rng = rng_with(3);
    let h1 = s.hits(&mut rng, r1, EPS_T, T_LIMIT);
    let h2 = s.hits(&mut rng, r2, EPS_T, T_LIMIT);
    assert_eq!(h1.is_some(), h2.is_some());
    assert_eq!(h1.unwrap().time, h2.unwrap().time);
}

#[test]
fn material_builder_chains() {
    let m = Material::new();
    assert_eq!(m.absorption_p, 0);
    assert_eq!(m.scattering_p, 0);
    assert_eq!(m.roughness, 0);
    assert_eq!(m.color, Vec3(SCALE, SCALE, SCALE));
    let m2 = m.absorption_p(20_000).scattering_p(SCALE).roughness(50_000).color(
        Vec3(10_000, 20_000, 30_000),
    ).finalize();
    assert_eq!(m2.absorption_p, 20_000);
    assert_eq!(m2.scattering_p, SCALE);
    assert_eq!(m2.roughness, 50_000);
    assert_eq!(m2.color, Vec3(10_000, 20_000, 30_000));
}

#[test]
fn validity_checks_mirror_the_invariants() {
    let camera = SimpleCamera {
        lower_left_corner: Vec3(-2 * SCALE, -SCALE, -SCALE),
        horizontal: Vec3(4 * SCALE, 0, 0),
        vertical: Vec3(0, 2 * SCALE, 0),
        origin: Vec3(0, 0, 0),
    };
    assert!(camera.in_range());
    let far = SimpleCamera { origin: Vec3(200_000_000_000, 0, 0), ..camera };
    assert!(!far.in_range());
    assert!(diffuse_material().in_range());
    let bad = Material { absorption_p: -5, ..Material::new() };
    assert!(!bad.in_range());
    let mut world = Hittables::new();
    assert!(world.in_range());
    world.push(Sphere { center: Vec3(0, 0, -SCALE), radius: 50_000, material: diffuse_material() });
    assert!(world.in_range());
    world.push(Sphere { center: Vec3(0, 0, -SCALE), radius: -1, material: diffuse_material() });
    assert!(!world.in_range());
}

#[test]
fn pixel_line_formats_channels() {
    assert_eq!(pathtracer::io::pixel_line((255, 0, 127)), "255 0 127");
    assert_eq!(pathtracer::io::pixel_line((7, 42, 200)), "7 42 200");
}

#[test]
fn material_getters_return_owned_material() {
    let m = diffuse_material();
    let s = Sphere { center: Vec3(0, 0, -SCALE), radius: 50_000, material: m };
    assert_eq!(s.material(), m);
    let world = Hittables::new();
    assert_eq!(world.material(), Material::new());
}

#[test]
fn color_string_covers_digit_widths() {
    // channels 42, 7 and 255: two, one and three decimal digits
    let v = Vec3(16_471, 2_746, SCALE);
    assert_eq!(v.as_pixel(), (42, 7, 255));
    assert_eq!(v.color_string(), "42 7 255");
}

#[test]
fn random_vectors_stay_in_the_unit_cube() {
    let mut rng = rng_with(9);
    for _ in 0..100 {
        let v = Vec3::random(&mut rng);
        assert!(0 <= v.0 && v.0 < SCALE);
        assert!(0 <= v.1 && v.1 < SCALE);
        assert!(0 <= v.2 && v.2 < SCALE);
        let b = Vec3::random_in_unit_sphere(&mut rng);
        assert!(b.length() <= SCALE);
    }
}
