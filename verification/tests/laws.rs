use raytracer::Fp;
use raytracer::camera::Camera;
use raytracer::camera::T_MIN_RAW;
use raytracer::camera::background;
use raytracer::color::Rgb;
use raytracer::color::linear_to_gamma;
use raytracer::color::quantize_channel;
use raytracer::color::to_rgb;
use raytracer::fixed::SCALE;
use raytracer::hittable::Hit;
use raytracer::hittable::Surface;
use raytracer::hittable_list::HittableList;
use raytracer::interval::Interval;
use raytracer::material::Dielectric;
use raytracer::material::Lambertian;
use raytracer::material::Material;
use raytracer::material::Metal;
use raytracer::ray::Ray;
use raytracer::rng::random_01;
use raytracer::rng::random_symmetric;
use raytracer::sphere::Sphere;
use raytracer::vec3::Vec3;
use raytracer::vec3::random_unit_vector;
use raytracer::vec3::reflect;
use raytracer::vec3::refract;

fn fpi(i: i64) -> Fp {
    Fp::from_int(i)
}

fn v3(x: i64, y: i64, z: i64) -> Vec3 {
    Vec3::from_ints(x, y, z)
}

fn gray() -> Material {
    Material::Lambertian(Lambertian::new(v3(1, 1, 1).scale(Fp::from_raw(SCALE / 2))))
}

fn full_interval() -> Interval {
    Interval::new(Fp::from_raw(T_MIN_RAW), Fp::max_value())
}

#[test]
fn test_neg_involution() {
    let v = v3(1, -2, 3);
    assert_eq!(v.neg().neg(), v);
}

#[test]
fn test_add_neg_is_zero() {
    let v = v3(7, -4, 9);
    assert_eq!(v.add(v.neg()), Vec3::zero());
}

#[test]
fn test_dot_self_is_norm_sq() {
    let v = v3(3, -5, 11);
    assert_eq!(v.dot(v), v.norm_sq());
}

#[test]
fn test_unit_norm_close_to_one() {
    let v = v3(3, 4, 0);
    let n = v.unit().norm().raw();
    assert!((n - SCALE).abs() <= 8, "norm of unit vector was {}", n);
}

#[test]
fn test_unit_axis_norm_exact() {
    let v = v3(100, 0, 0);
    assert_eq!(v.unit().norm(), Fp::one());
}

#[test]
fn test_cross_antisymmetric() {
    let u = v3(1, 2, 3);
    let v = v3(4, 5, 6);
    assert_eq!(u.cross(v), v.cross(u).neg());
}

#[test]
fn test_cross_orthogonal() {
    let u = v3(1, 2, 3);
    let v = v3(4, 5, 6);
    let c = u.cross(v);
    assert_eq!(u.dot(c), Fp::zero());
    assert_eq!(v.dot(c), Fp::zero());
}

#[test]
fn test_sphere_head_on_hit() {
    // a sphere five units ahead with radius two is struck at t = 3
    let sphere = Sphere::new(v3(0, 0, -5), fpi(2), gray());
    let ray = Ray::new(Vec3::zero(), v3(0, 0, -1));
    let hit = sphere.hit(&ray, full_interval()).expect("head-on ray must hit");
    assert_eq!(hit.t, fpi(3));
    assert!(hit.front_face);
}

#[test]
fn test_sphere_offset_miss() {
    // perpendicular offset three exceeds radius two: no hit
    let sphere = Sphere::new(v3(3, 0, -5), fpi(2), gray());
    let ray = Ray::new(Vec3::zero(), v3(0, 0, -1));
    assert!(sphere.hit(&ray, full_interval()).is_none());
}

#[test]
fn test_scene_closest_hit() {
    // two spheres on the same ray, struck at t = 2 and t = 5: the scan
    // returns the closer, in either insertion order
    let near = Surface::Sphere(Sphere::new(v3(0, 0, -3), fpi(1), gray()));
    let far = Surface::Sphere(Sphere::new(v3(0, 0, -6), fpi(1), gray()));
    let ray = Ray::new(Vec3::zero(), v3(0, 0, -1));

    let mut world = HittableList::new();
    world.add(near);
    world.add(far);
    let hit = world.hit(&ray, full_interval()).expect("ray must hit");
    assert_eq!(hit.t, fpi(2));

    let mut reversed = HittableList::new();
    reversed.add(far);
    reversed.add(near);
    let hit2 = reversed.hit(&ray, full_interval()).expect("ray must hit");
    assert_eq!(hit2.t, fpi(2));
}

#[test]
fn test_scene_empty_misses() {
    let world = HittableList::new();
    let ray = Ray::new(Vec3::zero(), v3(0, 0, -1));
    assert!(world.hit(&ray, full_interval()).is_none());
}

#[test]
fn test_ray_color_depth_zero_is_black() {
    let cam = Camera::new(Fp::one(), 8, fpi(90), Vec3::zero(), v3(0, 0, -1), v3(0, 1, 0));
    let mut world = HittableList::new();
    world.add(Surface::Sphere(Sphere::new(v3(0, 0, -3), fpi(2), gray())));
    let ray = Ray::new(Vec3::zero(), v3(0, 0, -1));
    assert_eq!(cam.ray_color(&ray, 0, &world), Vec3::zero());
}

#[test]
fn test_lambertian_never_absorbs() {
    let albedo = v3(1, 1, 1).scale(Fp::from_raw(SCALE / 4));
    let mat = Material::Lambertian(Lambertian::new(albedo));
    let ray = Ray::new(Vec3::zero(), v3(0, 0, -1));
    let hit = Hit::new(&ray, v3(0, 0, -3), fpi(3), &v3(0, 0, 1), mat);
    for _ in 0..20 {
        let (attenuation, scattered) = mat.scatter(&ray, &hit).expect("diffuse never absorbs");
        assert_eq!(attenuation, albedo);
        assert_eq!(scattered.origin, hit.p);
    }
}

#[test]
fn test_metal_scatter_boundary() {
    let albedo = v3(1, 1, 1).scale(Fp::from_raw(SCALE / 2));
    let mat = Material::Metal(Metal::new(albedo, fpi(2)));
    let ray = Ray::new(Vec3::zero(), v3(0, 0, -1));
    let hit = Hit::new(&ray, v3(0, 0, -3), fpi(3), &v3(0, 0, 1), mat);

    // with this draw the perturbed reflection points back out: a scatter
    let out = mat.scatter_with(&ray, &hit, v3(0, 0, 1), Fp::zero());
    assert!(out.is_some());

    // with this draw the fuzz drags the reflection into the surface: absorbed
    let absorbed = mat.scatter_with(&ray, &hit, v3(0, 0, -1), Fp::zero());
    assert!(absorbed.is_none());
}

#[test]
fn test_dielectric_never_absorbs() {
    let mat = Material::Dielectric(Dielectric::new(Fp::from_raw(3 * SCALE / 2)));
    let ray = Ray::new(Vec3::zero(), v3(0, 0, -1));
    let hit = Hit::new(&ray, v3(0, 0, -3), fpi(3), &v3(0, 0, 1), mat);
    for _ in 0..20 {
        let (attenuation, _) = mat.scatter(&ray, &hit).expect("glass never absorbs");
        assert_eq!(attenuation, v3(1, 1, 1));
    }
}

#[test]
fn test_reflect_about_normal() {
    let d = v3(1, -1, 0);
    let n = v3(0, 1, 0);
    assert_eq!(reflect(d, n), v3(1, 1, 0));
}

#[test]
fn test_refract_straight_through() {
    let uv = v3(0, 0, -1);
    let n = v3(0, 0, 1);
    assert_eq!(refract(uv, n, Fp::one()), v3(0, 0, -1));
}

#[test]
fn test_gamma_of_quarter_is_half() {
    assert_eq!(linear_to_gamma(Fp::from_raw(SCALE / 4)), Fp::from_raw(SCALE / 2));
}

#[test]
fn test_gamma_of_nonpositive_is_zero() {
    assert_eq!(linear_to_gamma(Fp::zero()), Fp::zero());
    assert_eq!(linear_to_gamma(fpi(-1)), Fp::zero());
}

#[test]
fn test_quantize_channels() {
    assert_eq!(quantize_channel(Fp::zero()), 0);
    assert_eq!(quantize_channel(fpi(-3)), 0);
    assert_eq!(quantize_channel(Fp::one()), 255);
    assert_eq!(quantize_channel(fpi(4)), 255);
    assert_eq!(quantize_channel(Fp::from_raw(SCALE / 4)), 127);
}

#[test]
fn test_to_rgb_channels() {
    let px = to_rgb(Vec3::new(Fp::zero(), Fp::one(), Fp::from_raw(SCALE / 4)));
    assert_eq!(px, Rgb { r: 0, g: 255, b: 127 });
}

#[test]
fn test_background_at_zenith() {
    // a ray pointing straight up blends all the way to the zenith color
    let ray = Ray::new(Vec3::zero(), v3(0, 1, 0));
    let sky = background(&ray);
    assert_eq!(sky.x.raw(), SCALE / 2);
    assert_eq!(sky.z.raw(), SCALE);
}

#[test]
fn test_random_01_range() {
    for _ in 0..200 {
        let r = random_01().raw();
        assert!(0 <= r && r < SCALE);
    }
}

#[test]
fn test_random_symmetric_range() {
    for _ in 0..200 {
        let r = random_symmetric().raw();
        assert!(-SCALE <= r && r <= SCALE);
    }
}

#[test]
fn test_random_unit_vector_norm() {
    for _ in 0..50 {
        let u = random_unit_vector();
        let n = u.norm_sq().raw();
        assert!((n - SCALE).abs() <= 16, "squared norm of unit draw was {}", n);
    }
}

#[test]
fn test_interval_queries() {
    let i = Interval::new(fpi(1), fpi(3));
    assert_eq!(i.size(), fpi(2));
    assert!(i.contains(fpi(1)) && i.contains(fpi(2)) && i.contains(fpi(3)));
    assert!(!i.contains(fpi(4)));
    assert!(i.surrounds(fpi(2)));
    assert!(!i.surrounds(fpi(1)) && !i.surrounds(fpi(3)));

    let e = Interval::empty();
    assert!(!e.contains(Fp::zero()));
    let u = Interval::universe();
    assert!(u.contains(fpi(-1000)) && u.contains(fpi(1000)));
}

#[test]
fn test_hit_orients_normal_against_ray() {
    let mat = gray();
    let ray = Ray::new(Vec3::zero(), v3(0, 0, -1));
    let outward = v3(0, 0, 1);
    let outside = Hit::new(&ray, v3(0, 0, -3), fpi(3), &outward, mat);
    assert!(outside.front_face);
    assert_eq!(outside.normal, outward);

    let leaving = Ray::new(Vec3::zero(), v3(0, 0, 1));
    let inside = Hit::new(&leaving, v3(0, 0, 5), fpi(5), &v3(0, 0, 1), mat);
    assert!(!inside.front_face);
    assert_eq!(inside.normal, v3(0, 0, -1));
}
