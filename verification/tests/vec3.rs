use raytracer::Fp;
use raytracer::fixed::SCALE;
use raytracer::vec3::Vec3;

fn fpi(i: i64) -> Fp {
    Fp::from_int(i)
}

fn v3(x: i64, y: i64, z: i64) -> Vec3 {
    Vec3::from_ints(x, y, z)
}

#[test]
fn test_negate() {
    let v = v3(1, 1, 1);
    let expected = v3(-1, -1, -1);
    assert_eq!(v.neg(), expected);
}

#[test]
fn test_add() {
    let v = v3(1, 1, 1);
    let expected = v3(2, 2, 2);
    assert_eq!(v.clone().add(v), expected);
}

#[test]
fn test_add_assign() {
    let mut v = v3(1, 1, 1);
    let expected = v3(2, 2, 2);

    v = v.add(v.clone());
    assert_eq!(v, expected);
}

#[test]
fn test_sub() {
    let v = v3(1, 1, 1);
    let w = v3(2, 3, 4);
    let expected = v3(-1, -2, -3);

    assert_eq!(v.sub(w), expected);
}

#[test]
fn test_sub_assign() {
    let mut v = v3(1, 1, 1);
    let w = v3(2, 3, 4);
    let expected = v3(-1, -2, -3);

    v = v.sub(w);
    assert_eq!(v, expected);
}

#[test]
fn test_scalar_mul() {
    let v = v3(1, 1, 1);
    let expected = v3(2, 2, 2);
    assert_eq!(v.scale(fpi(2)), expected);
}

#[test]
fn test_scalar_mul_assign() {
    let mut v = v3(1, 1, 1);
    let expected = v3(2, 2, 2);

    v = v.scale(fpi(2));
    assert_eq!(v, expected);
}

#[test]
fn test_pairwise_mul() {
    let v = v3(1, 1, 1);
    let w = v3(2, 2, 2);
    let expected = v3(2, 2, 2);
    assert_eq!(v.mul(w), expected);
}

#[test]
fn test_pairwise_mul_assign() {
    let mut v = v3(1, 1, 1);
    let w = v3(2, 2, 2);
    let expected = v3(2, 2, 2);

    v = v.mul(w);
    assert_eq!(v, expected);
}

#[test]
fn test_scalar_div() {
    let v = v3(2, 2, 2);
    let expected = v3(1, 1, 1);
    assert_eq!(v.div(fpi(2)), expected);
}

#[test]
fn test_scalar_div_assign() {
    let mut v = v3(2, 2, 2);
    let expected = v3(1, 1, 1);

    v = v.div(fpi(2));
    assert_eq!(v, expected);
}

#[test]
fn test_norm() {
    let v = v3(2, 2, 2);
    // the squared length is 2^2 * 3 = 12; the norm is the truncated
    // square root of 12, characterized exactly by its raw value
    let n = v.norm().raw() as i128;
    let twelve = 12i128 * (SCALE as i128) * (SCALE as i128);

    assert!(n * n <= twelve);
    assert!(twelve < (n + 1) * (n + 1));
}

#[test]
fn test_norm_sq() {
    let v = v3(2, 2, 2);
    let expected = fpi(12);

    assert_eq!(v.norm_sq(), expected);
}

#[test]
fn test_dot() {
    let v = v3(2, 2, 2);
    let w = v3(2, 2, 2);
    let expected = fpi(12);

    assert_eq!(v.dot(w), expected);
}

#[test]
fn test_cross() {
    let u = v3(2, 0, 0);
    let v = v3(0, 2, 0);
    let expected = v3(0, 0, 4);

    assert_eq!(u.cross(v), expected);
}

#[test]
fn test_unit() {
    let v = v3(100, 0, 0);
    let expected = v3(1, 0, 0);

    assert_eq!(v.unit(), expected);
}
