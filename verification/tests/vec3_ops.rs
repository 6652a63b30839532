use raytracer::number::Real;
use raytracer::vec3::Vec3;

fn num(x: f64) -> Real {
    Real::from_bits(x.to_bits())
}

fn v3(x: f64, y: f64, z: f64) -> Vec3 {
    Vec3(num(x), num(y), num(z))
}

#[test]
fn test_op() {
    let v1 = v3(1., 2., 3.);
    let v2 = v3(4., 5., 6.);
    assert_eq!(v1 + v2, v3(5., 7., 9.));
    assert_eq!(v1 - v2, v3(-3., -3., -3.));
    assert_eq!(v1 * v2, v3(4., 10., 18.));
    assert_eq!(v1 / v2, v3(0.25, 0.4, 0.5));
    assert_eq!(v1 * num(3.), v3(3., 6., 9.));
}
