use lumen_trace::fixed::ONE;
use lumen_trace::material::lambertian::Lambertian;
use lumen_trace::material::metal::Metal;
use lumen_trace::material::surface::Surface;
use lumen_trace::objects::list::HittableList;
use lumen_trace::objects::sphere::Sphere;
use lumen_trace::output::{channel_level, color_levels, pixel_position, write_color};
use lumen_trace::ray::Ray;
use lumen_trace::tracer::{ray_color, render_pixel, sky, T_MAX, T_MIN};
use lumen_trace::vector::Vec3;
use rand::rngs::StdRng;
use rand::SeedableRng;

fn scene() -> HittableList {
    let mut world = HittableList::new();
    let ground = world.add_material(Surface::Lambertian(Lambertian { albedo: Vec3::new(800_000_000, 800_000_000, 0) }));
    let center = world.add_material(Surface::Lambertian(Lambertian { albedo: Vec3::new(700_000_000, 300_000_000, 300_000_000) }));
    let left = world.add_material(Surface::Metal(Metal { albedo: Vec3::new(800_000_000, 800_000_000, 800_000_000), fuzz: 300_000_000 }));
    let right = world.add_material(Surface::Metal(Metal { albedo: Vec3::new(800_000_000, 600_000_000, 200_000_000), fuzz: ONE }));
    world.add(Sphere { center: Vec3::new(0, -100_500_000_000, -ONE), radius: 100 * ONE, material: ground });
    world.add(Sphere { center: Vec3::new(0, 0, -ONE), radius: ONE / 2, material: center });
    world.add(Sphere { center: Vec3::new(-ONE, 0, -ONE), radius: ONE / 2, material: left });
    world.add(Sphere { center: Vec3::new(ONE, 0, -ONE), radius: ONE / 2, material: right });
    world
}

fn camera_ray(column: usize, row: usize, width: usize, height: usize) -> Ray {
    let u = (column as i64) * ONE / (width as i64 - 1);
    let v = (row as i64) * ONE / (height as i64 - 1);
    let lower_left = Vec3::new(-2 * ONE, -ONE, -ONE);
    let direction = lower_left.add(Vec3::new(4 * ONE, 0, 0).scale(u)).add(Vec3::new(0, 2 * ONE, 0).scale(v));
    Ray::new(Vec3::new(0, 0, 0), direction)
}

fn render(seed: u64, samples: usize) -> Vec<(u8, u8, u8)> {
    let world = scene();
    let (width, height) = (16usize, 9usize);
    let mut rng = StdRng::seed_from_u64(seed);
    let mut pixels = Vec::new();
    for index in 0..width * height {
        let (column, row) = pixel_position(index, width, height);
        let rays = vec![camera_ray(column, row, width, height); samples];
        let total = render_pixel(&mut rng, &rays, &world, 10);
        pixels.push(color_levels(&total, samples));
    }
    pixels
}

#[test]
fn bounds_of_the_hit_interval() {
    assert_eq!(T_MIN, ONE / 1_000);
    assert_eq!(T_MAX, i64::MAX);
}

#[test]
fn no_depth_left_is_black() {
    let world = scene();
    let mut rng = StdRng::seed_from_u64(0);
    let toward_sphere = Ray::new(Vec3::new(0, 0, 0), Vec3::new(0, 0, -ONE));
    assert_eq!(ray_color(&mut rng, toward_sphere, &world, 0), Vec3::new(0, 0, 0));
    let toward_sky = Ray::new(Vec3::new(0, 0, 0), Vec3::new(0, ONE, 0));
    assert_eq!(ray_color(&mut rng, toward_sky, &world, 0), Vec3::new(0, 0, 0));
    assert_eq!(ray_color(&mut rng, toward_sky, &HittableList::new(), 0), Vec3::new(0, 0, 0));
}

#[test]
fn sky_is_blue_above_and_white_below() {
    let up = Ray::new(Vec3::new(0, 0, 0), Vec3::new(0, ONE, 0));
    let down = Ray::new(Vec3::new(0, 0, 0), Vec3::new(0, -ONE, 0));
    let level = Ray::new(Vec3::new(0, 0, 0), Vec3::new(ONE, 0, 0));
    assert_eq!(sky(&up), Vec3::new(500_000_000, 700_000_000, ONE));
    assert_eq!(sky(&down), Vec3::new(ONE, ONE, ONE));
    assert_eq!(sky(&level), Vec3::new(750_000_000, 850_000_000, ONE));
    let steep = Ray::new(Vec3::new(5, 5, 5), Vec3::new(0, 7 * ONE, 0));
    assert_eq!(sky(&steep), Vec3::new(500_000_000, 700_000_000, ONE));
}

#[test]
fn ray_into_empty_space_sees_the_sky() {
    let empty = HittableList::new();
    let mut rng = StdRng::seed_from_u64(0);
    let up = Ray::new(Vec3::new(0, 0, 0), Vec3::new(0, ONE, 0));
    let down = Ray::new(Vec3::new(0, 0, 0), Vec3::new(0, -ONE, 0));
    assert_eq!(ray_color(&mut rng, up, &empty, 50), Vec3::new(500_000_000, 700_000_000, ONE));
    assert_eq!(ray_color(&mut rng, down, &empty, 50), Vec3::new(ONE, ONE, ONE));
    let world = scene();
    assert_eq!(ray_color(&mut rng, up, &world, 1), Vec3::new(500_000_000, 700_000_000, ONE));
}

#[test]
fn short_ray_aimed_at_a_sphere_does_not_see_the_sky() {
    let mut world = HittableList::new();
    let paint = world.add_material(Surface::Lambertian(Lambertian { albedo: Vec3::new(ONE / 2, ONE / 2, ONE / 2) }));
    world.add(Sphere { center: Vec3::new(0, 0, -ONE), radius: ONE / 2, material: paint });
    let mut rng = StdRng::seed_from_u64(0);
    let short = Ray::new(Vec3::new(0, 0, 0), Vec3::new(0, 0, -10_000));
    assert_eq!(ray_color(&mut rng, short, &world, 1), Vec3::new(0, 0, 0));
    let shortest = Ray::new(Vec3::new(0, 0, 0), Vec3::new(0, 0, -1));
    assert_eq!(ray_color(&mut rng, shortest, &world, 1), Vec3::new(0, 0, 0));
}

#[test]
fn surface_without_a_material_is_black() {
    let mut world = HittableList::new();
    world.add(Sphere { center: Vec3::new(0, 0, -ONE), radius: ONE / 2, material: 3 });
    let mut rng = StdRng::seed_from_u64(0);
    let ray = Ray::new(Vec3::new(0, 0, 0), Vec3::new(0, 0, -ONE));
    assert_eq!(ray_color(&mut rng, ray, &world, 5), Vec3::new(0, 0, 0));
}

#[test]
fn mirror_tints_the_sky_it_reflects() {
    let mut world = HittableList::new();
    let mirror = world.add_material(Surface::Metal(Metal { albedo: Vec3::new(ONE / 2, ONE / 2, ONE / 2), fuzz: 0 }));
    world.add(Sphere { center: Vec3::new(0, -ONE, 0), radius: ONE / 2, material: mirror });
    let mut rng = StdRng::seed_from_u64(0);
    let down = Ray::new(Vec3::new(0, 0, 0), Vec3::new(0, -ONE, 0));
    assert_eq!(ray_color(&mut rng, down, &world, 2), Vec3::new(250_000_000, 350_000_000, ONE / 2));
    assert_eq!(ray_color(&mut rng, down, &world, 1), Vec3::new(0, 0, 0));
}

#[test]
fn absorbed_ray_is_black() {
    let mut world = HittableList::new();
    let rough = world.add_material(Surface::Metal(Metal { albedo: Vec3::new(ONE, ONE, ONE), fuzz: 50 * ONE }));
    world.add(Sphere { center: Vec3::new(0, -ONE, 0), radius: ONE / 2, material: rough });
    let down = Ray::new(Vec3::new(0, 0, 0), Vec3::new(0, -ONE, 0));
    let mut black = 0;
    for seed in 0..40 {
        let mut rng = StdRng::seed_from_u64(seed);
        if ray_color(&mut rng, down, &world, 2) == Vec3::new(0, 0, 0) {
            black += 1;
        }
    }
    assert!(black > 0);
}

#[test]
fn pixel_is_the_sum_of_its_samples() {
    let empty = HittableList::new();
    let mut rng = StdRng::seed_from_u64(0);
    let up = Ray::new(Vec3::new(0, 0, 0), Vec3::new(0, ONE, 0));
    let down = Ray::new(Vec3::new(0, 0, 0), Vec3::new(0, -ONE, 0));
    assert_eq!(render_pixel(&mut rng, &vec![], &empty, 5), Vec3::new(0, 0, 0));
    assert_eq!(render_pixel(&mut rng, &vec![up, down, up], &empty, 5), Vec3::new(2 * ONE, 2_400_000_000, 3 * ONE));
    assert_eq!(render_pixel(&mut rng, &vec![up, down], &empty, 0), Vec3::new(0, 0, 0));
}

#[test]
fn same_seed_gives_the_same_image() {
    let first = render(42, 1);
    let second = render(42, 1);
    assert_eq!(first.len(), 16 * 9);
    assert_eq!(first, second);
}

#[test]
fn other_seeds_give_other_images() {
    let first = render(1, 3);
    let second = render(2, 3);
    assert_ne!(first, second);
}

#[test]
fn channel_levels_follow_the_formula() {
    assert_eq!(channel_level(ONE / 4, 1), 128);
    assert_eq!(channel_level(ONE, 1), 255);
    assert_eq!(channel_level(0, 1), 0);
    assert_eq!(channel_level(-ONE, 1), 0);
    assert_eq!(channel_level(10 * ONE, 10), 255);
    assert_eq!(channel_level(2_500_000_000, 10), 128);
    assert_eq!(channel_level(ONE, 4), 128);
    assert_eq!(channel_level(640_000_000, 1), 204);
    assert_eq!(channel_level(i64::MAX, 1), 255);
    assert_eq!(channel_level(i64::MIN, 3), 0);
    assert_eq!(channel_level(998_000_000, 1), 255);
    assert_eq!(channel_level(15_258, 1), 0);
    assert_eq!(channel_level(15_259, 1), 1);
}

#[test]
fn color_levels_are_red_green_blue() {
    let total = Vec3::new(ONE, ONE / 4, 0);
    assert_eq!(color_levels(&total, 1), (255, 128, 0));
    assert_eq!(color_levels(&Vec3::new(500_000_000, 700_000_000, ONE), 1), (181, 214, 255));
}

#[test]
fn pixel_text_is_three_levels_in_decimal() {
    assert_eq!(write_color(&Vec3::new(ONE, ONE / 4, 0), 1), b"255 128 0".to_vec());
    assert_eq!(write_color(&Vec3::new(0, 0, 0), 7), b"0 0 0".to_vec());
    assert_eq!(write_color(&Vec3::new(15_259, 1_600_000, 160_000_000), 1), b"1 10 102".to_vec());
    assert_eq!(write_color(&Vec3::new(5 * ONE, 7 * ONE, 10 * ONE), 10), b"181 214 255".to_vec());
    assert_eq!(write_color(&Vec3::new(-ONE, 2_000_000, 1_400_000), 1), b"0 11 9".to_vec());
}

#[test]
fn pixels_are_written_from_the_top_row_down() {
    assert_eq!(pixel_position(0, 4, 3), (0, 2));
    assert_eq!(pixel_position(3, 4, 3), (3, 2));
    assert_eq!(pixel_position(4, 4, 3), (0, 1));
    assert_eq!(pixel_position(11, 4, 3), (3, 0));
    assert_eq!(pixel_position(0, 1, 1), (0, 0));
}
