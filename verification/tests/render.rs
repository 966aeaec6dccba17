use pathtracer::cameras::SimpleCamera;
use pathtracer::fixed::SCALE;
use pathtracer::hittables::{HitResult, Hittables, Sphere};
use pathtracer::materials::{Material, Reflectance};
use pathtracer::ray::Ray;
use pathtracer::renderers::{ray_color, SingleThreadedRenderer};
use pathtracer::vec3::Vec3;
use rand::SeedableRng;

fn rng_with(seed: u64) -> rand::rngs::StdRng {
    rand::rngs::StdRng::seed_from_u64(seed)
}

fn standard_camera() -> SimpleCamera {
    SimpleCamera {
        lower_left_corner: Vec3(-2 * SCALE, -SCALE, -SCALE),
        horizontal: Vec3(4 * SCALE, 0, 0),
        vertical: Vec3(0, 2 * SCALE, 0),
        origin: Vec3(0, 0, 0),
    }
}

fn four_sphere_scene() -> Hittables {
    let mut world = Hittables::new();
    world.push(Sphere {
        center: Vec3(0, 0, -SCALE),
        radius: 50_000,
        material: Material::new()
            .reflectance(Reflectance::Diffuse)
            .scattering_p(SCALE)
            .roughness(SCALE)
            .color(Vec3(70_000, 30_000, 30_000))
            .finalize(),
    });
    world.push(Sphere {
        center: Vec3(SCALE, 0, -SCALE),
        radius: 50_000,
        material: Material::new()
            .reflectance(Reflectance::Mirrory)
            .scattering_p(SCALE)
            .roughness(0)
            .color(Vec3(80_000, 60_000, 20_000))
            .finalize(),
    });
    world.push(Sphere {
        center: Vec3(-SCALE, 0, -SCALE),
        radius: 50_000,
        material: Material::new()
            .reflectance(Reflectance::Mirrory)
            .scattering_p(SCALE)
            .roughness(50_000)
            .color(Vec3(80_000, 80_000, 80_000))
            .finalize(),
    });
    world.push(Sphere {
        center: Vec3(0, -100 * SCALE - 50_000, -SCALE),
        radius: 100 * SCALE,
        material: Material::new()
            .reflectance(Reflectance::Diffuse)
            .scattering_p(SCALE)
            .roughness(SCALE)
            .color(Vec3(80_000, 80_000, 0))
            .finalize(),
    });
    world
}

#[test]
fn attenuation_of_a_certain_scatter() {
    // scattering_p = 1: the scatter branch is taken on every draw, so the
    // attenuation is exactly (1 - absorption_p) * color.
    let m = Material::new()
        .scattering_p(SCALE)
        .absorption_p(20_000)
        .color(Vec3(50_000, SCALE, 30_000))
        .finalize();
    let mut rng = rng_with(5);
    let normal = Vec3(0, SCALE, 0);
    let HitResult::Scatter(att, out) =
        m.get_hit_result(&mut rng, Vec3(0, 0, 0), Vec3(0, -SCALE, 0), normal);
    assert_eq!(att, Vec3(40_000, 80_000, 24_000));
    assert_eq!(out.origin, Vec3(0, 0, 0));
}

#[test]
fn attenuation_of_a_certain_absorption() {
    // scattering_p = 0: the absorbed branch is taken on every draw, so the
    // attenuation is exactly zero and the ray continues unchanged.
    let m = Material::new().scattering_p(0).color(Vec3(SCALE, SCALE, SCALE)).finalize();
    let mut rng = rng_with(5);
    let incoming = Vec3(0, -SCALE, 0);
    let HitResult::Scatter(att, out) =
        m.get_hit_result(&mut rng, Vec3(10_000, 0, 0), incoming, Vec3(0, SCALE, 0));
    assert_eq!(att, Vec3(0, 0, 0));
    assert_eq!(out.origin, Vec3(10_000, 0, 0));
    assert_eq!(out.direction, incoming);
}

#[test]
fn zero_depth_is_black() {
    let world = four_sphere_scene();
    let mut rng = rng_with(11);
    let r = Ray { origin: Vec3(0, 0, 0), direction: Vec3(0, 0, -SCALE) };
    assert_eq!(ray_color(r, &world, 0, &mut rng), Vec3(0, 0, 0));
    let empty = Hittables::new();
    let r2 = Ray { origin: Vec3(30_000, -20_000, 0), direction: Vec3(SCALE, SCALE, 0) };
    assert_eq!(ray_color(r2, &empty, 0, &mut rng), Vec3(0, 0, 0));
}

#[test]
fn sky_is_white_looking_down() {
    let empty = Hittables::new();
    let mut rng = rng_with(2);
    let r = Ray { origin: Vec3(0, 0, 0), direction: Vec3(0, -SCALE, 0) };
    assert_eq!(ray_color(r, &empty, 50, &mut rng), Vec3(SCALE, SCALE, SCALE));
}

#[test]
fn sky_is_blue_looking_up() {
    let empty = Hittables::new();
    let mut rng = rng_with(2);
    let r = Ray { origin: Vec3(0, 0, 0), direction: Vec3(0, SCALE, 0) };
    assert_eq!(ray_color(r, &empty, 50, &mut rng), Vec3(50_000, 70_000, 100_000));
}

#[test]
fn short_downward_direction_still_yields_plain_white() {
    // A very short direction normalizes to exactly (0, -1, 0): the sky stays
    // inside [0, 1] even for sub-unit direction vectors.
    let empty = Hittables::new();
    let mut rng = rng_with(2);
    let r = Ray { origin: Vec3(0, 0, 0), direction: Vec3(0, -400, 0) };
    assert_eq!(ray_color(r, &empty, 50, &mut rng), Vec3(SCALE, SCALE, SCALE));
}

#[test]
fn render_produces_row_major_buffer() {
    let world = four_sphere_scene();
    let camera = standard_camera();
    let mut rng = rng_with(4);
    let img = SingleThreadedRenderer::render(8, 4, &camera, &world, 2, 3, &mut rng);
    assert_eq!(img.len(), 4);
    for row in &img {
        assert_eq!(row.len(), 8);
    }
}

#[test]
fn identically_seeded_renders_are_identical() {
    let world = four_sphere_scene();
    let camera = standard_camera();
    let mut rng1 = rng_with(7);
    let img1 = SingleThreadedRenderer::render(6, 3, &camera, &world, 4, 8, &mut rng1);
    let mut rng2 = rng_with(7);
    let img2 = SingleThreadedRenderer::render(6, 3, &camera, &world, 4, 8, &mut rng2);
    assert_eq!(img1, img2);
    let mut rng3 = rng_with(8);
    let img3 = SingleThreadedRenderer::render(6, 3, &camera, &world, 4, 8, &mut rng3);
    assert!(img1 != img3);
}

#[test]
fn occluded_center_pixel_is_darker_than_the_sky() {
    // A diffuse sphere of radius 0.5 at (0, 0, -1), viewed down -z: the
    // averaged center-pixel radiance converges to something strictly darker
    // than the unoccluded sky in that direction, (0.75, 0.85, 1.0).
    let mut world = Hittables::new();
    world.push(Sphere {
        center: Vec3(0, 0, -SCALE),
        radius: 50_000,
        material: Material::new()
            .reflectance(Reflectance::Diffuse)
            .scattering_p(SCALE)
            .roughness(SCALE)
            .color(Vec3(70_000, 30_000, 30_000))
            .finalize(),
    });
    let camera = standard_camera();
    let mut rng = rng_with(13);
    let samples: i64 = 1000;
    let mut sum = Vec3(0, 0, 0);
    for _ in 0..samples {
        let r = camera.get_ray(50_000, 50_000);
        let c = ray_color(r, &world, 50, &mut rng);
        sum = sum.add(&c);
    }
    let avg = sum.div_count(samples);
    assert!(avg.0 < 75_000 - 5_000);
    assert!(avg.1 < 85_000 - 5_000);
    assert!(avg.2 < 100_000 - 5_000);
}
