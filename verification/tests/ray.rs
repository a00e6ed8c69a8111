use raytracer::Fp;
use raytracer::ray::Ray;
use raytracer::vec3::Vec3;

#[test]
fn test_at() {
    let ray = Ray {
        origin: Vec3::from_ints(1, 0, 0),
        dir: Vec3::from_ints(0, 1, 0),
    };

    let expected = Vec3::from_ints(1, 5, 0);

    assert_eq!(ray.at(Fp::from_int(5)), expected);
}
