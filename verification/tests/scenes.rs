use raytracer::camera::{Eye, Footprint, RayCtx, Screen};
use raytracer::fx::SCALE;
use raytracer::object::{BaseObject, Plan};
use raytracer::scene::Scene;
use raytracer::vec3::Vec3;

fn square_footprint() -> Footprint {
    Footprint {
        sw: Vec3::new(0, 0, 0),
        se: Vec3::new(10 * SCALE, 0, 0),
        nw: Vec3::new(0, 0, 10 * SCALE),
        ne: Vec3::new(10 * SCALE, 0, 10 * SCALE),
    }
}

#[test]
fn forest_plants_trees_and_only_trees() {
    let mut scene = Scene::new();
    let fp = square_footprint();
    let trees = scene.generate_forest_monte_carlo(&fp, SCALE / 10);
    assert!(trees > 0);
    assert_eq!(scene.objects.len(), trees as usize);
    for o in &scene.objects {
        assert!(matches!(o, BaseObject::Conifer(_)));
    }
}

#[test]
fn forest_audit_reaches_coverage_without_overlap() {
    let mut scene = Scene::new();
    let fp = square_footprint();
    let mut audit = raytracer::scene::ForestAudit {
        circles: Vec::new(),
        areas: Vec::new(),
        area: 0,
        attempts: 0,
    };
    // a tenth of the hundred-unit surface
    let trees = scene.generate_forest_with_audit(&fp, SCALE / 10, &mut audit);
    let target = fp.get_surface() * (SCALE / 10) / SCALE;
    assert!(audit.area >= target || audit.attempts == raytracer::scene::MAX_PLACEMENT_ATTEMPTS);
    assert!(audit.area <= target + 0x10000);
    assert_eq!(audit.circles.len(), trees as usize);
    assert_eq!(audit.areas.len(), trees as usize);
    // the total is the sum of the accepted trees' circle areas
    let sum: i64 = audit.areas.iter().sum();
    assert_eq!(sum, audit.area);
    // the accepted exclusion circles pass the pairwise test
    for i in 0..audit.circles.len() {
        for j in (i + 1)..audit.circles.len() {
            assert!(!audit.circles[i].intersects(&audit.circles[j]));
        }
    }
}

#[test]
fn footprint_surface_of_square() {
    let fp = square_footprint();
    // ten units by ten units
    assert_eq!(fp.get_surface(), 100 * SCALE);
}

#[test]
fn footprint_surface_of_trapezoid() {
    // south edge six units, north edge twelve, four units apart
    let fp = Footprint {
        sw: Vec3::new(0, 0, 0),
        se: Vec3::new(6 * SCALE, 0, 0),
        nw: Vec3::new(-3 * SCALE, 0, 4 * SCALE),
        ne: Vec3::new(9 * SCALE, 0, 4 * SCALE),
    };
    assert_eq!(fp.get_surface(), 36 * SCALE);
}

#[test]
fn footprint_position_interpolates() {
    let fp = square_footprint();
    let center = fp.get_real_position(SCALE / 2, SCALE / 2);
    assert_eq!(center.x, 5 * SCALE);
    assert_eq!(center.z, 5 * SCALE);
}

#[test]
fn signature_stamps_sixty_spheres() {
    let eye = Eye {
        origin: Vec3::new(0, 0, -25 * SCALE),
        direction: Vec3::new(0, 0, SCALE),
    };
    let screen = Screen { width: 512, height: 270 };
    let ctx = RayCtx::new(&eye, &screen, false, false);
    let mut scene = Scene::new();
    scene.add_signature(&ctx);
    assert_eq!(scene.objects.len(), 60);
    for o in &scene.objects {
        assert!(matches!(o, BaseObject::Sphere(_)));
    }
}

#[test]
fn suns_are_configured() {
    let mut scene = Scene::new();
    assert!(scene.sun.is_none());
    scene.set_golden_sun();
    let (d, _, soft) = scene.sun.unwrap();
    assert_eq!(d.x, 3 * SCALE);
    assert_eq!(soft, 819);
    scene.set_blue_sun();
    let (d2, _, soft2) = scene.sun.unwrap();
    assert_eq!(d2.x, -3 * SCALE);
    assert_eq!(soft2, 922);
}

#[test]
fn footprint_from_camera_lands_on_floor() {
    let eye = Eye {
        origin: Vec3::new(0, 25 * SCALE, 0),
        direction: Vec3::new(0, -SCALE, SCALE),
    };
    let screen = Screen { width: 512, height: 270 };
    let ctx = RayCtx::new(&eye, &screen, false, false);
    let floor = Plan::new(Vec3::new(0, 0, 0), Vec3::new(0, SCALE, 0), (237, 201, 175));
    let fp = ctx.get_footprint(&floor);
    // the corners looking down land on the floor plane, near y == 0
    assert!(fp.sw.y.abs() < SCALE);
    assert!(fp.se.y.abs() < SCALE);
}

#[test]
fn extraction_builds_two_spheres_per_cell() {
    let eye = Eye {
        origin: Vec3::new(0, 0, -25 * SCALE),
        direction: Vec3::new(0, 0, SCALE),
    };
    let screen = Screen { width: 64, height: 64 };
    let ctx = RayCtx::new(&eye, &screen, false, false);
    // an eight-by-eight photo, all one color
    let bytes = vec![200u8; 8 * 8 * 3];
    let photo = raytracer::render::photo_from_bytes(8, 8, bytes).unwrap();
    let mut scene = Scene::new();
    let n = scene.generate_from_image(&ctx, &photo, 5 * SCALE);
    assert!(n > 0);
    assert_eq!(n % 2, 0);
    assert_eq!(scene.objects.len(), n);
    // the photo is uniform, so every sphere whose screen print is hit
    // averages to exactly the photo color; at least the central cells
    // must be hit by their own sub-rays
    let expected = Vec3::from_rgb(200, 200, 200);
    let hits = scene
        .objects
        .iter()
        .filter(|o| matches!(o, BaseObject::Sphere(s) if s.color == expected))
        .count();
    assert!(hits > 0);
}
