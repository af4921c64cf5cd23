use raytracer::camera::{Eye, RayCtx, Screen};
use raytracer::fx::SCALE;
use raytracer::render::{eta_ms, fresh_buffer, image_get, image_into_bytes, undone_color};
use raytracer::scene::Scene;
use raytracer::vec3::Vec3;

fn small_ctx() -> RayCtx {
    let eye = Eye {
        origin: Vec3::new(0, 0, -25 * SCALE),
        direction: Vec3::new(0, 0, SCALE),
    };
    let screen = Screen { width: 4, height: 4 };
    // deterministic: no diffuse bounce, no shadows
    RayCtx::new(&eye, &screen, false, false)
}

fn sky_scene() -> Scene {
    Scene::new()
}

#[test]
fn fresh_buffer_all_sentinel() {
    let buf = fresh_buffer(4, 4);
    for y in 0..4u32 {
        for x in 0..4u32 {
            assert_eq!(image_get(&buf, x, y), undone_color());
        }
    }
}

#[test]
fn render_finishes_every_pixel() {
    let ctx = small_ctx();
    let scene = sky_scene();
    let mut buf = fresh_buffer(4, 4);
    let worked = ctx.render_scene(&scene, &mut buf, 2);
    assert_eq!(worked, 16);
    for y in 0..4u32 {
        for x in 0..4u32 {
            let p = image_get(&buf, x, y);
            assert_ne!(p, undone_color());
            assert_eq!(p.3, 255);
        }
    }
}

#[test]
fn resume_does_no_work_and_keeps_bytes() {
    // a fully rendered buffer is returned byte-identical, with zero
    // freshly computed pixels
    let ctx = small_ctx();
    let scene = sky_scene();
    let mut buf = fresh_buffer(4, 4);
    ctx.render_scene(&scene, &mut buf, 2);
    let before = image_into_bytes(buf);
    let mut buf2 = raytracer::render::image_from_bytes(4, 4, before.clone()).unwrap();
    let worked = ctx.render_scene(&scene, &mut buf2, 2);
    assert_eq!(worked, 0);
    let after = image_into_bytes(buf2);
    assert_eq!(before, after);
}

#[test]
fn cancelled_render_keeps_finished_pixels_and_resumes() {
    // stop after six pixels: every finished pixel is opaque and
    // valid, every other pixel still holds the sentinel; resuming
    // gives the same image as an uninterrupted run
    let ctx = small_ctx();
    let scene = sky_scene();
    let mut partial = fresh_buffer(4, 4);
    let mut done = 0u32;
    'outer: for y in 0..4u32 {
        for x in 0..4u32 {
            if done == 6 {
                break 'outer;
            }
            ctx.process_pixel(&scene, &mut partial, x, y, 2);
            done += 1;
        }
    }
    let mut finished = Vec::new();
    for y in 0..4u32 {
        for x in 0..4u32 {
            let p = image_get(&partial, x, y);
            let idx = y * 4 + x;
            if idx < 6 {
                assert_eq!(p.3, 255);
                finished.push(p);
            } else {
                assert_eq!(p, undone_color());
            }
        }
    }
    // resuming finishes the rest and never touches a finished pixel
    ctx.render_scene(&scene, &mut partial, 2);
    let mut k = 0;
    for y in 0..4u32 {
        for x in 0..4u32 {
            let p = image_get(&partial, x, y);
            assert_eq!(p.3, 255);
            let idx = y * 4 + x;
            if idx < 6 {
                assert_eq!(p, finished[k]);
                k += 1;
            }
        }
    }
}

#[test]
fn eta_extrapolates_linearly() {
    // 10 seen, 10 worked, 100 total, 5 ms gone: 90 still to attempt
    assert_eq!(eta_ms(5, 10, 10, 100), 5 * 100 / 10);
    // skipped pixels do not count as work to come
    assert_eq!(eta_ms(8, 20, 10, 100), 8 * (100 - 10) / 10);
    // nothing worked yet: scale by the full remainder
    assert_eq!(eta_ms(3, 0, 0, 100), 300);
}

#[test]
fn sky_is_horizon_blend() {
    // a horizontal ray sees the horizon color, byte for byte
    let scene = sky_scene();
    let r = raytracer::ray::Ray {
        origin: Vec3::new(0, 0, 0),
        direction: Vec3::new(SCALE, 0, 0),
        is_light: false,
    };
    let c = r.color(&scene, false, false, 0);
    let (cr, cg, cb) = c.to_rgb();
    assert_eq!((cr, cg, cb), (77, 143, 170));
}
