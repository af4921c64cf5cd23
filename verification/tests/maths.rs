use raytracer::fx::SCALE;
use raytracer::solver::solve_3variable_system;
use raytracer::vec3::Vec3;

#[test]
fn solve_3variable_system_test() {
    let a = Vec3::new(2 * SCALE, 5 * SCALE, -2 * SCALE);
    let b = Vec3::new(3 * SCALE, -1 * SCALE, -2 * SCALE);
    let c = Vec3::new(-4 * SCALE, 2 * SCALE, 3 * SCALE);
    let p = Vec3::new(-5 * SCALE, 15 * SCALE, 3 * SCALE);
    let r = solve_3variable_system(&a, &b, &c, &p);
    assert!(r.is_some());
    let r = r.unwrap();
    assert!(r.x.is_int(2));
    assert!(r.y.is_int(1));
    assert!(r.z.is_int(3));
}

#[test]
fn solver_rejects_degenerate_columns() {
    // a zero first column leaves no usable pivot
    let a = Vec3::new(0, 0, 0);
    let b = Vec3::new(SCALE, 0, 0);
    let c = Vec3::new(0, SCALE, 0);
    let p = Vec3::new(SCALE, SCALE, SCALE);
    assert!(solve_3variable_system(&a, &b, &c, &p).is_none());
}

#[test]
fn solver_identity_basis() {
    let a = Vec3::new(SCALE, 0, 0);
    let b = Vec3::new(0, SCALE, 0);
    let c = Vec3::new(0, 0, SCALE);
    let p = Vec3::new(7 * SCALE, 8 * SCALE, 9 * SCALE);
    let r = solve_3variable_system(&a, &b, &c, &p).unwrap();
    assert!(r.x.is_int(7));
    assert!(r.y.is_int(8));
    assert!(r.z.is_int(9));
}

#[test]
fn color_round_trip_bytes() {
    // every byte survives the trip through the color vector
    for b in 0..=255u8 {
        let v = Vec3::from_rgb(b, b, b);
        let (r, g, bb) = v.to_rgb();
        assert_eq!(r, b);
        assert_eq!(g, b);
        assert_eq!(bb, b);
    }
}

#[test]
fn color_conversion_clamps() {
    let v = Vec3::new(-5 * SCALE, 2 * SCALE, SCALE / 2);
    let (r, g, b) = v.to_rgb();
    assert_eq!(r, 0);
    assert_eq!(g, 255);
    assert_eq!(b, 128);
}

#[test]
fn color_value_round_trip_within_step() {
    // values in [0,1] come back within one quantization step
    let step = SCALE / 256;
    for v in [0i64, 1, 3, 512, 1000, 1023, 1024] {
        let c = Vec3::new(v, v, v);
        let (r, _, _) = c.to_rgb();
        let back = Vec3::from_rgb(r, r, r);
        assert!(v - back.x >= 0);
        assert!(v - back.x <= step);
    }
}

#[test]
fn mix_rgb_endpoints() {
    let c1 = (10u8, 20u8, 30u8);
    let c2 = (110u8, 120u8, 130u8);
    assert_eq!(raytracer::vec3::mix_rgb(c1, c2, 0), c1);
    assert_eq!(raytracer::vec3::mix_rgb(c1, c2, SCALE), c2);
    assert_eq!(raytracer::vec3::mix_rgb(c1, c2, SCALE / 2), (60, 70, 80));
}

#[test]
fn normalize_axis() {
    let v = Vec3::new(0, 5 * SCALE, 0);
    let n = v.to_normalized();
    assert_eq!(n.x, 0);
    assert_eq!(n.y, SCALE);
    assert_eq!(n.z, 0);
}

#[test]
fn cross_product_axes() {
    let x = Vec3::new(SCALE, 0, 0);
    let y = Vec3::new(0, SCALE, 0);
    let z = x.cross_product(&y);
    assert_eq!(z.x, 0);
    assert_eq!(z.y, 0);
    assert_eq!(z.z, SCALE);
}
