use raytracer::Fp;
use raytracer::camera::Camera;
use raytracer::camera::background;
use raytracer::color::Rgb;
use raytracer::color::to_rgb;
use raytracer::hittable::Surface;
use raytracer::hittable_list::HittableList;
use raytracer::material::Lambertian;
use raytracer::material::Material;
use raytracer::sphere::Sphere;
use raytracer::vec3::Vec3;

fn fpi(i: i64) -> Fp {
    Fp::from_int(i)
}

fn v3(x: i64, y: i64, z: i64) -> Vec3 {
    Vec3::from_ints(x, y, z)
}

fn single_sphere_world() -> HittableList {
    let albedo = v3(1, 1, 1).scale(Fp::from_raw(raytracer::fixed::SCALE / 2));
    let mat = Material::Lambertian(Lambertian::new(albedo));
    let mut world = HittableList::new();
    world.add(Surface::Sphere(Sphere::new(v3(0, 0, -3), fpi(2), mat)));
    world
}

fn test_camera() -> Camera {
    let aspect = fpi(16).div(fpi(9));
    let mut cam = Camera::new(aspect, 16, fpi(90), Vec3::zero(), v3(0, 0, -1), v3(0, 1, 0));
    cam.samples_per_pixel = 1;
    cam.max_depth = 1;
    cam
}

#[test]
fn test_render_dimensions() {
    let mut cam = test_camera();
    let world = single_sphere_world();
    let pixels = cam.render(&world);
    assert_eq!(cam.img_width, 16);
    assert_eq!(cam.img_height, 9);
    assert_eq!(pixels.len(), 16 * 9);
}

#[test]
fn test_single_sphere_center_and_corner() {
    let mut cam = test_camera();
    let world = single_sphere_world();
    let pixels = cam.render(&world);

    // the sphere fills the view center; at depth one every hit bounces
    // once and then cuts off at black, which no sky pixel can be
    let center = pixels[4 * 16 + 8];
    assert_eq!(center, Rgb { r: 0, g: 0, b: 0 });

    // the corner misses the sphere and keeps the sky's full blue channel
    let corner = pixels[0];
    assert_eq!(corner.b, 255);
    assert!(corner != center);
}

#[test]
fn test_corner_pixel_is_exact_sky_gradient() {
    let mut cam = test_camera();
    cam.initialize();
    let world = single_sphere_world();

    // an unjittered corner ray misses the sphere, so its estimate is
    // exactly the sky gradient for that ray
    let ray = cam.get_ray_with(0, 0, Vec3::zero());
    let estimate = cam.ray_color(&ray, 1, &world);
    assert_eq!(estimate, background(&ray));
    assert_eq!(to_rgb(estimate), to_rgb(background(&ray)));
}
