use renderer::camera::{Camera, InputKey};
use renderer::frame::FrameCounter;
use renderer::fx;
use renderer::intersect;
use renderer::light::{AmbientLight, Light, PointLight};
use renderer::renderer::{Ray, Rgba};
use renderer::scene::Scene;
use renderer::sphere::Sphere;
use renderer::vec3::Vec3;

const S: i64 = 1_000_000_000;

fn v(x: i64, y: i64, z: i64) -> Vec3 {
    Vec3 { x, y, z }
}

fn unit_sphere_scene() -> Scene {
    Scene {
        spheres: vec![Sphere { center: v(0, 0, 0), radius: S, albedo: v(S, 0, 0) }],
        lights: vec![Light::Ambient(AmbientLight {
            intensity: v(S / 10, S / 10, S / 10),
        })],
    }
}

#[test]
fn fx_mul_rounds_toward_zero() {
    assert_eq!(fx::fx_mul(3 * S, 25 * S / 10), 7_500_000_000);
    assert_eq!(fx::fx_mul(-3 * S, 25 * S / 10), -7_500_000_000);
    assert_eq!(fx::fx_mul(-1, 1), 0);
    assert_eq!(fx::fx_mul(1, 1), 0);
    assert_eq!(fx::fx_mul(S, S), S);
}

#[test]
fn isqrt_exact_values() {
    assert_eq!(fx::isqrt(0), 0);
    assert_eq!(fx::isqrt(1), 1);
    assert_eq!(fx::isqrt(24), 4);
    assert_eq!(fx::isqrt(25), 5);
    assert_eq!(fx::isqrt((S as u128) * (S as u128)), S as u64);
    assert_eq!(fx::isqrt(u128::from(u64::MAX) * u128::from(u64::MAX)), u64::MAX);
}

#[test]
fn clamp01_bounds() {
    assert_eq!(fx::clamp01(-5), 0);
    assert_eq!(fx::clamp01(S + 1), S);
    assert_eq!(fx::clamp01(123), 123);
}

#[test]
fn normalize_constructor_unit_direction() {
    // A 3-4-5 triangle normalizes exactly.
    let r = Ray::new_normalize(v(0, 0, 0), v(3 * S, 4 * S, 0));
    assert_eq!(r.direction, v(600_000_000, 800_000_000, 0));
    // The squared norm of any normalized direction is 1 within 1e-6.
    let r2 = Ray::new_normalize(v(0, 0, 0), v(7 * S / 10, -S / 3, 2 * S));
    let n2 = (r2.direction.x as i128).pow(2)
        + (r2.direction.y as i128).pow(2)
        + (r2.direction.z as i128).pow(2);
    let n = fx::isqrt(n2 as u128) as i64;
    assert!((n - S).abs() <= 1000, "norm {n}");
}

#[test]
fn preserve_constructor_stores_exactly() {
    let r = Ray::new_preserve(v(1, -2, 3), v(123, -456, 789));
    assert_eq!(r.origin, v(1, -2, 3));
    assert_eq!(r.direction, v(123, -456, 789));
}

#[test]
fn sphere_intersection_head_on() {
    // Ray from (-10,0,0) straight at a sphere of radius 2 at (5,0,0):
    // the hit parameter is |O - C| - r = 13 within one unit.
    let s = Sphere { center: v(5 * S, 0, 0), radius: 2 * S, albedo: v(S, S, S) };
    let ray = Ray::new_preserve(v(-10 * S, 0, 0), v(S, 0, 0));
    let t = intersect::intersect(&s, &ray).expect("hit");
    assert!((t - 13 * S).abs() <= 1, "t {t}");
    let h = intersect::make_hit(&s, &ray, t);
    // The outward normal is exactly unit length, pointing back at the ray.
    assert_eq!(h.normal, v(-S, 0, 0));
}

#[test]
fn sphere_intersection_miss() {
    let s = Sphere { center: v(0, 0, 0), radius: S, albedo: v(S, S, S) };
    let ray = Ray::new_preserve(v(-10 * S, 5 * S, 0), v(S, 0, 0));
    assert_eq!(intersect::intersect(&s, &ray), None);
}

#[test]
fn nearest_hit_selection() {
    // Two overlapping spheres on the ray path: the nearer hit wins.
    let far = Sphere { center: v(10 * S, 0, 0), radius: 2 * S, albedo: v(S, 0, 0) };
    let near = Sphere { center: v(8 * S, 0, 0), radius: 2 * S, albedo: v(0, S, 0) };
    let scene = Scene { spheres: vec![far, near], lights: vec![] };
    let ray = Ray::new_preserve(v(-10 * S, 0, 0), v(S, 0, 0));
    let h = scene.query(&ray).expect("hit");
    assert_eq!(h.sphere.albedo, v(0, S, 0));
    assert!((h.t - 16 * S).abs() <= 1, "t {}", h.t);
}

#[test]
fn nearest_hit_tie_breaks_first() {
    let a = Sphere { center: v(5 * S, 0, 0), radius: S, albedo: v(S, 0, 0) };
    let b = Sphere { center: v(5 * S, 0, 0), radius: S, albedo: v(0, 0, S) };
    let scene = Scene { spheres: vec![a, b], lights: vec![] };
    let ray = Ray::new_preserve(v(-10 * S, 0, 0), v(S, 0, 0));
    let h = scene.query(&ray).expect("hit");
    assert_eq!(h.sphere.albedo, v(S, 0, 0));
}

#[test]
fn shading_doubles_with_intensity() {
    let albedo = v(S, S / 2, S / 4);
    let point = v(0, 0, 0);
    let normal = v(-S, 0, 0);
    let l1 = PointLight { position: v(-5 * S, S, 0), intensity: v(S, S / 2, S / 3), falloff: Some(2) };
    let l2 = PointLight { position: v(-5 * S, S, 0), intensity: v(2 * S, S, 2 * S / 3), falloff: Some(2) };
    let t1 = renderer::light::point_term(albedo, point, normal, &l1);
    let t2 = renderer::light::point_term(albedo, point, normal, &l2);
    assert!(t1.x > 0);
    assert!(t2.x >= 2 * t1.x);
    assert!(t2.y >= 2 * t1.y);
    assert!(t2.z >= 2 * t1.z);
}

#[test]
fn shading_backfacing_is_zero() {
    // Normal points away from the light: zero contribution.
    let albedo = v(S, S, S);
    let point = v(0, 0, 0);
    let normal = v(S, 0, 0);
    let l = PointLight { position: v(-5 * S, 0, 0), intensity: v(S, S, S), falloff: None };
    let t = renderer::light::point_term(albedo, point, normal, &l);
    assert_eq!(t, v(0, 0, 0));
}

#[test]
fn attenuation_values() {
    // No falloff: full strength. Exponent 1 at distance 2: 1 / (1 + 2).
    assert_eq!(renderer::light::attenuation(2 * S, None), S);
    assert_eq!(renderer::light::attenuation(2 * S, Some(1)), 333_333_333);
    // Exponent 0: d^0 = 1, so 1 / (1 + 1).
    assert_eq!(renderer::light::attenuation(7 * S, Some(0)), S / 2);
}

#[test]
fn empty_scene_renders_background() {
    let scene = Scene { spheres: vec![], lights: vec![] };
    let cam = Camera::initial(4, 4);
    let buf = cam.create_buffer(&scene);
    assert_eq!(buf.len(), 4);
    for row in &buf {
        assert_eq!(row.len(), 4);
        for p in row {
            assert_eq!(*p, Rgba { r: 0, g: 0, b: 0, a: S });
        }
    }
}

#[test]
fn single_sphere_center_hit() {
    let scene = unit_sphere_scene();
    let cam = Camera::initial(1, 1);
    let buf = cam.create_buffer(&scene);
    let p = buf[0][0];
    assert!((p.r - S / 10).abs() <= 10_000, "r {}", p.r);
    assert_eq!(p.g, 0);
    assert_eq!(p.b, 0);
    assert_eq!(p.a, S);
}

#[test]
fn offset_camera_misses() {
    let scene = unit_sphere_scene();
    let mut cam = Camera::initial(1, 1);
    cam.location.origin = v(-10 * S, 5 * S, 0);
    let buf = cam.create_buffer(&scene);
    assert_eq!(buf[0][0], Rgba { r: 0, g: 0, b: 0, a: S });
}

#[test]
fn lambert_lobe_head_on() {
    // The albedo (1,0,0) gates every contribution to the red channel:
    // ambient 0.1 plus a full-strength head-on Lambert term, clamped to 1.
    let mut scene = unit_sphere_scene();
    scene.lights.push(Light::Point(PointLight {
        position: v(-10 * S, 0, 0),
        intensity: v(S, S, S),
        falloff: None,
    }));
    let cam = Camera::initial(1, 1);
    let buf = cam.create_buffer(&scene);
    let p = buf[0][0];
    assert!((p.r - S).abs() <= 10_000, "r {}", p.r);
    assert_eq!(p.g, 0);
    assert_eq!(p.b, 0);
}

#[test]
fn rotation_round_trip() {
    // 628 right-arrow steps of 0.01 rad come back to the start within 1e-2.
    let mut cam = Camera::initial(1, 1);
    for _ in 0..628 {
        cam.apply_key(InputKey::ArrowRight);
    }
    let d = cam.location.direction;
    assert!((d.x - S).abs() <= S / 100, "x {}", d.x);
    assert!(d.y.abs() <= S / 100, "y {}", d.y);
    assert_eq!(d.z, 0);
}

#[test]
fn rotation_preserves_forward_z() {
    let mut cam = Camera::initial(1, 1);
    cam.location.direction = v(3 * S, 4 * S, 7 * S / 2);
    cam.apply_key(InputKey::ArrowLeft);
    assert_eq!(cam.location.direction.z, 7 * S / 2);
    cam.apply_key(InputKey::ArrowRight);
    assert_eq!(cam.location.direction.z, 7 * S / 2);
}

#[test]
fn translation_ten_steps() {
    let mut cam = Camera::initial(1, 1);
    for _ in 0..10 {
        cam.apply_key(InputKey::W);
    }
    assert_eq!(cam.location.origin, v(-9 * S, 0, 0));
}

#[test]
fn translation_all_axes() {
    let mut cam = Camera::initial(1, 1);
    cam.apply_key(InputKey::S);
    assert_eq!(cam.location.origin.x, -10 * S - S / 10);
    cam.apply_key(InputKey::D);
    assert_eq!(cam.location.origin.y, S / 10);
    cam.apply_key(InputKey::A);
    assert_eq!(cam.location.origin.y, 0);
    cam.apply_key(InputKey::Z);
    assert_eq!(cam.location.origin.z, S / 10);
    cam.apply_key(InputKey::X);
    assert_eq!(cam.location.origin.z, 0);
}

#[test]
fn translation_clamps_at_world_box() {
    let mut cam = Camera::initial(1, 1);
    cam.location.origin = v(1_000_000_000_000, 0, 0);
    cam.apply_key(InputKey::W);
    assert_eq!(cam.location.origin.x, 1_000_000_000_000);
}

#[test]
fn render_twice_is_identical() {
    let scene = Scene::pondering_orbs();
    let cam = Camera::initial(16, 9);
    let b1 = cam.create_buffer(&scene);
    let b2 = cam.create_buffer(&scene);
    assert_eq!(b1, b2);
}

#[test]
fn buffer_dimensions_and_channel_ranges() {
    let scene = Scene::pondering_orbs();
    let cam = Camera::initial(5, 3);
    let buf = cam.create_buffer(&scene);
    assert_eq!(buf.len(), 3);
    for row in &buf {
        assert_eq!(row.len(), 5);
        for p in row {
            assert!(0 <= p.r && p.r <= S);
            assert!(0 <= p.g && p.g <= S);
            assert!(0 <= p.b && p.b <= S);
            assert_eq!(p.a, S);
        }
    }
}

#[test]
fn zero_dimensions_refuse_to_render() {
    let scene = unit_sphere_scene();
    let cam = Camera::initial(0, 7);
    assert!(cam.create_buffer(&scene).is_empty());
    let cam2 = Camera::initial(7, 0);
    assert!(cam2.create_buffer(&scene).is_empty());
}

#[test]
fn demo_scene_contents() {
    let scene = Scene::pondering_orbs();
    assert_eq!(scene.spheres.len(), 3);
    assert_eq!(scene.lights().len(), 2);
    assert_eq!(scene.spheres[0].center, v(0, 0, 0));
    assert_eq!(scene.spheres[0].radius, S);
    // Distinct albedos along the +x axis.
    assert_ne!(scene.spheres[0].albedo, scene.spheres[1].albedo);
    assert_ne!(scene.spheres[1].albedo, scene.spheres[2].albedo);
    assert_eq!(scene.spheres[1].center.x, 4 * S);
    assert_eq!(scene.spheres[2].center.x, 8 * S);
}

#[test]
fn frame_counter_tracks_updates() {
    let mut fc = FrameCounter::new(1000);
    assert_eq!(fc.frame_count, 0);
    fc.update(10, 1500);
    // Half a second: the update mark stays.
    assert_eq!(fc.frame_count, 10);
    assert_eq!(fc.last_update_ms, 1000);
    fc.update(60, 3000);
    assert_eq!(fc.last_update_ms, 3000);
    // 60 frames over 2 seconds: 30.0 fps, in thousandths.
    assert_eq!(fc.fps_milli(), 30_000);
}

#[test]
fn frame_counter_zero_elapsed() {
    let fc = FrameCounter::new(42);
    assert_eq!(fc.fps_milli(), 0);
}
