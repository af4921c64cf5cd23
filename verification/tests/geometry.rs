use raytracer::fx::SCALE;
use raytracer::object::{Plan, Sphere, Triangle};
use raytracer::ray::{Ray, T_MAX};
use raytracer::vec3::Vec3;

fn axis_ray(oz: i64) -> Ray {
    Ray {
        origin: Vec3::new(0, 0, oz),
        direction: Vec3::new(0, 0, SCALE),
        is_light: false,
    }
}

#[test]
fn sphere_front_face_hit() {
    // a sphere at the origin, radius two, seen from ten units out:
    // the hit lands at distance minus radius, with an outward unit
    // normal
    let s = Sphere::new(Vec3::new(0, 0, 0), 2 * SCALE, (100, 100, 100));
    let r = axis_ray(-10 * SCALE);
    let h = s.hits(&r, 0, T_MAX).unwrap();
    assert_eq!(h.t, 8 * SCALE);
    assert_eq!(h.p.z, -2 * SCALE);
    assert_eq!(h.normal.x, 0);
    assert_eq!(h.normal.y, 0);
    assert_eq!(h.normal.z, -SCALE);
    // unit length, pointing outward: against the incoming ray
    let nn = h.normal.dot_product(&h.normal);
    assert_eq!(nn, SCALE);
    let to_hit = Vec3::new(h.p.x, h.p.y, h.p.z);
    assert!(h.normal.dot_product(&to_hit) > 0);
}

#[test]
fn sphere_miss_behind() {
    let s = Sphere::new(Vec3::new(0, 0, 0), 2 * SCALE, (100, 100, 100));
    let r = axis_ray(10 * SCALE);
    assert!(s.hits(&r, 0, T_MAX).is_none());
}

#[test]
fn triangle_centroid_hit_at_plane_parameter() {
    // the centroid of the triangle is hit exactly at the plane's own
    // parameter
    let a = Vec3::new(3 * SCALE, 0, 2 * SCALE);
    let b = Vec3::new(0, 3 * SCALE, 2 * SCALE);
    let c = Vec3::new(-3 * SCALE, -3 * SCALE, 2 * SCALE);
    let tri = Triangle::new_ref(&a, &b, &c, &(10, 20, 30));
    let r = axis_ray(0);
    let h = tri.hits(&r, 0, T_MAX).unwrap();
    assert_eq!(h.t, 2 * SCALE);
    assert_eq!(h.p.z, 2 * SCALE);
}

#[test]
fn triangle_outside_same_plane_misses() {
    // far outside one edge, on the same infinite plane: no hit
    let a = Vec3::new(3 * SCALE, 0, 2 * SCALE);
    let b = Vec3::new(0, 3 * SCALE, 2 * SCALE);
    let c = Vec3::new(-3 * SCALE, -3 * SCALE, 2 * SCALE);
    let tri = Triangle::new_ref(&a, &b, &c, &(10, 20, 30));
    let mut r = axis_ray(0);
    r.origin = Vec3::new(40 * SCALE, 0, 0);
    assert!(tri.hits(&r, 0, T_MAX).is_none());
    // but the infinite plane through the triangle is still hit
    let plane = Plan::new(a, Vec3::new(0, 0, -SCALE), (1, 2, 3));
    assert!(plane.hits(&r, 0, T_MAX).is_some());
}

#[test]
fn plane_rejects_parallel_ray() {
    let plane = Plan::new(Vec3::new(0, 0, 2 * SCALE), Vec3::new(0, 0, -SCALE), (1, 2, 3));
    let r = Ray {
        origin: Vec3::new(0, 0, 0),
        direction: Vec3::new(SCALE, 0, 0),
        is_light: false,
    };
    assert!(plane.hits(&r, 0, T_MAX).is_none());
}

#[test]
fn ellipsoid_maps_hit_and_normal_back() {
    // a squashed sphere twice as deep as wide: the hit point and the
    // normal both come back out scaled by the radii
    let e = raytracer::object::Ellipsoid::new(
        Vec3::new(0, 0, 0),
        Vec3::new(SCALE, SCALE, 2 * SCALE),
        (10, 20, 30),
    );
    let r = axis_ray(-25 * SCALE);
    let h = e.hits(&r, 0, T_MAX).unwrap();
    assert_eq!(h.t, 23 * SCALE);
    assert_eq!(h.p.z, -2 * SCALE);
    assert_eq!(h.normal.x, 0);
    assert_eq!(h.normal.y, 0);
    assert_eq!(h.normal.z, -2 * SCALE);
}

#[test]
fn conifer_has_requested_levels() {
    let c = raytracer::object::Conifer::with_shape(
        Vec3::new(0, 0, 0), 2 * SCALE, 5, (SCALE, 0), (0, 151, 0));
    assert_eq!(c.tetrahedrons.len(), 5);
    assert!(c.height > 0);
    // the bounding sphere sits a third of the way up, with radius
    // four fifths of the height
    assert_eq!(c.bounding_sphere.center.x, 0);
    assert_eq!(c.bounding_sphere.center.y, c.height / 3);
    assert_eq!(c.bounding_sphere.center.z, 0);
    let rad = (c.height * 4) / 5;
    assert_eq!(c.bounding_sphere.radius, if rad <= 1 { 1 } else { rad });
}
