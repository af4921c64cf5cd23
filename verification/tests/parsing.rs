use raytracer::fx::SCALE;
use raytracer::parse::{is_geometry, is_sun, is_vec3, parse_geometry, parse_sun, parse_vec3};

#[test]
fn geometry_accepts_and_rejects() {
    assert!(is_geometry(String::from("512x270")).is_ok());
    assert!(is_geometry(String::from("4096x2160")).is_ok());
    assert!(is_geometry(String::from("axb")).is_err());
    assert!(is_geometry(String::from("12x")).is_err());
    assert!(is_geometry(String::from("")).is_err());
}

#[test]
fn rejections_name_their_grammar() {
    assert_eq!(is_geometry(String::from("axb")).unwrap_err(), "invalid geometry");
    assert_eq!(is_vec3(String::from("nonsense")).unwrap_err(), "invalid vector");
    assert_eq!(is_sun(String::from("()")).unwrap_err(), "invalid sun");
}

#[test]
fn geometry_values() {
    assert_eq!(parse_geometry("4096x2160").unwrap(), (4096, 2160));
    // the leftmost match wins, wherever it stands
    assert_eq!(parse_geometry("geometry=800x600!").unwrap(), (800, 600));
}

#[test]
fn geometry_overflow_rejected() {
    // no run of digits that fits a machine word: rejected
    assert!(parse_geometry("99999999999x").is_err());
    // the leftmost start whose width still fits wins
    assert_eq!(parse_geometry("99999999999x2").unwrap(), (999999999, 2));
}

#[test]
fn vec3_accepts_and_rejects() {
    assert!(is_vec3(String::from("(0., 25., 0.)")).is_ok());
    assert!(is_vec3(String::from("(0., -1.0, 1.)")).is_ok());
    assert!(is_vec3(String::from("(0.0, 1.0, -1.0)")).is_ok());
    assert!(is_vec3(String::from("(1, 2, 3)")).is_err());
    assert!(is_vec3(String::from("(1.0,2.0,3.0)")).is_err());
    assert!(is_vec3(String::from("nonsense")).is_err());
}

#[test]
fn vec3_values() {
    let v = parse_vec3("(0., -1.0, 1.)").unwrap();
    assert_eq!(v.x, 0);
    assert_eq!(v.y, -SCALE);
    assert_eq!(v.z, SCALE);
    let w = parse_vec3("(2.5, 0.25, -0.125)").unwrap();
    assert_eq!(w.x, 2 * SCALE + SCALE / 2);
    assert_eq!(w.y, SCALE / 4);
    assert_eq!(w.z, -(SCALE / 8));
}

#[test]
fn sun_accepts_and_rejects() {
    assert!(is_sun(String::from("(0.0, 1.0, 0.0, 0, 0, 0, 0.)")).is_ok());
    assert!(is_sun(String::from("(3., 1., -3., 242, 144, 45, 0.8)")).is_ok());
    assert!(is_sun(String::from("(3., 1., -3., 500, 0, 0, 0.8)")).is_err());
    assert!(is_sun(String::from("()")).is_err());
}

#[test]
fn sun_softness_above_one_rejected() {
    assert!(is_sun(String::from("(3., 1., -3., 242, 144, 45, 1.5)")).is_err());
}

#[test]
fn sun_zero_softness_means_no_sun() {
    let r = parse_sun("(0.0, 1.0, 0.0, 0, 0, 0, 0.)").unwrap();
    assert!(r.is_none());
    let s = parse_sun("(3., 1., -3., 242, 144, 45, 0.5)").unwrap().unwrap();
    assert_eq!(s.0.x, 3 * SCALE);
    assert_eq!(s.1, (242, 144, 45));
    assert_eq!(s.2, SCALE / 2);
}
