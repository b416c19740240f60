//! Scenario tests for the fixed-point ray tracer.

use raytracer::canvas::Canvas;
use raytracer::color::{scale_channel, Color};
use raytracer::fixed::{fx_add, fx_div, fx_idiv, fx_mul, fx_sqrt, INF, SCALE};
use raytracer::intersect::intersect_ray_sphere;
use raytracer::lighting::compute_lighting;
use raytracer::projection::{canvas_2_viewport, Viewport};
use raytracer::render::render_frame;
use raytracer::scene::{Light, Scene, Sphere};
use raytracer::trace::trace_ray;
use raytracer::vec3::Vec3;

fn v(x: i64, y: i64, z: i64) -> Vec3 {
    Vec3 { x: x * SCALE, y: y * SCALE, z: z * SCALE }
}

fn scene_of(spheres: Vec<Sphere>, lights: Vec<Light>) -> Scene {
    Scene::new(spheres, lights).expect("scene construction should accept positive radii")
}

fn white() -> Color {
    Color { r: 255, g: 255, b: 255 }
}

#[test]
fn head_on_sphere_has_roots_two_and_four() {
    let sphere = Sphere { radius: SCALE, center: v(0, 0, 3), color: Color { r: 1, g: 2, b: 3 } };
    let roots = intersect_ray_sphere(v(0, 0, 0), v(0, 0, 1), &sphere);
    assert_eq!(roots.0, 4 * SCALE);
    assert_eq!(roots.1, 2 * SCALE);
}

#[test]
fn x_ray_misses_spheres_on_z_axis() {
    let scene = scene_of(
        vec![
            Sphere { radius: SCALE, center: v(0, 0, 3), color: Color { r: 10, g: 20, b: 30 } },
            Sphere { radius: 2 * SCALE, center: v(0, 0, 9), color: Color { r: 40, g: 50, b: 60 } },
        ],
        vec![Light::Ambient { intensity: SCALE }],
    );
    let c = trace_ray(v(0, 0, 0), v(1, 0, 0), SCALE, INF, &scene);
    assert_eq!(c, white());
}

#[test]
fn negative_discriminant_yields_sentinel() {
    // The ray passes three units from the center of a unit sphere.
    let sphere = Sphere { radius: SCALE, center: v(3, 0, 3), color: Color { r: 1, g: 2, b: 3 } };
    let roots = intersect_ray_sphere(v(0, 0, 0), v(0, 0, 1), &sphere);
    assert_eq!(roots.0, INF);
    assert_eq!(roots.1, INF);
}

#[test]
fn zero_direction_yields_sentinel() {
    let sphere = Sphere { radius: SCALE, center: v(0, 0, 3), color: Color { r: 1, g: 2, b: 3 } };
    let roots = intersect_ray_sphere(v(0, 0, 0), Vec3 { x: 0, y: 0, z: 0 }, &sphere);
    assert_eq!(roots.0, INF);
    assert_eq!(roots.1, INF);
}

#[test]
fn ambient_only_scales_each_channel() {
    let scene = scene_of(
        vec![Sphere {
            radius: SCALE,
            center: v(0, 0, 3),
            color: Color { r: 200, g: 100, b: 50 },
        }],
        vec![Light::Ambient { intensity: 200_000 }],
    );
    let c = trace_ray(v(0, 0, 0), v(0, 0, 1), SCALE, INF, &scene);
    assert_eq!(c, Color { r: 40, g: 20, b: 10 });
}

#[test]
fn equal_roots_select_earlier_sphere() {
    // Identical geometry, different colors: the scan keeps the first.
    let scene = scene_of(
        vec![
            Sphere { radius: SCALE, center: v(0, 0, 3), color: Color { r: 200, g: 0, b: 0 } },
            Sphere { radius: SCALE, center: v(0, 0, 3), color: Color { r: 0, g: 0, b: 200 } },
        ],
        vec![Light::Ambient { intensity: SCALE }],
    );
    let c = trace_ray(v(0, 0, 0), v(0, 0, 1), SCALE, INF, &scene);
    assert_eq!(c, Color { r: 200, g: 0, b: 0 });
}

#[test]
fn canvas_mapping_matches_screen_corners() {
    let canvas = Canvas { width: 800, height: 600 };
    assert_eq!(canvas.to_screen(0, 0), (400, 300));
    assert_eq!(canvas.to_screen(-400, 300), (0, 0));
    assert_eq!(canvas.to_screen(399, -299), (799, 599));
}

#[test]
fn rendering_twice_is_pixel_identical() {
    let canvas = Canvas { width: 6, height: 4 };
    let scene = scene_of(
        vec![Sphere {
            radius: SCALE,
            center: v(0, 0, 3),
            color: Color { r: 200, g: 100, b: 50 },
        }],
        vec![
            Light::Ambient { intensity: 200_000 },
            Light::Point { intensity: 600_000, position: v(2, 1, 0) },
            Light::Directional { intensity: 200_000, direction: v(1, 4, 4) },
        ],
    );
    let first = render_frame(canvas, &scene);
    let second = render_frame(canvas, &scene);
    assert_eq!(first, second);
}

#[test]
fn empty_scene_renders_pure_background() {
    let canvas = Canvas { width: 2, height: 2 };
    let scene = scene_of(vec![], vec![]);
    let frame = render_frame(canvas, &scene);
    assert_eq!(frame.len(), 4);
    for px in &frame {
        assert_eq!(px.color, white());
    }
}

#[test]
fn frame_covers_screen_coordinates_in_scan_order() {
    let canvas = Canvas { width: 2, height: 2 };
    let scene = scene_of(vec![], vec![]);
    let frame = render_frame(canvas, &scene);
    let screens: Vec<(i32, i32)> = frame.iter().map(|p| (p.x, p.y)).collect();
    assert_eq!(screens, vec![(0, 2), (0, 1), (1, 2), (1, 1)]);
}

#[test]
fn each_walks_offsets_column_major() {
    let canvas = Canvas { width: 2, height: 2 };
    assert_eq!(canvas.each(), vec![(-1, -1), (-1, 0), (0, -1), (0, 0)]);
}

#[test]
fn each_of_empty_canvas_is_empty() {
    let canvas = Canvas { width: 0, height: 600 };
    assert_eq!(canvas.each(), Vec::<(i32, i32)>::new());
}

#[test]
fn scene_rejects_nonpositive_radius() {
    let bad = Sphere { radius: 0, center: v(0, 0, 3), color: Color { r: 1, g: 2, b: 3 } };
    assert!(Scene::new(vec![bad], vec![]).is_none());
    let negative = Sphere { radius: -SCALE, center: v(0, 0, 3), color: Color { r: 1, g: 2, b: 3 } };
    assert!(Scene::new(vec![negative], vec![]).is_none());
}

#[test]
fn scene_accepts_positive_radii() {
    let good = Sphere { radius: 1, center: v(0, 0, 3), color: Color { r: 1, g: 2, b: 3 } };
    assert!(Scene::new(vec![good], vec![]).is_some());
}

#[test]
fn interval_bounds_are_strict() {
    let sphere = Sphere {
        radius: SCALE,
        center: v(0, 0, 3),
        color: Color { r: 200, g: 100, b: 50 },
    };
    let scene = scene_of(vec![sphere], vec![Light::Ambient { intensity: SCALE }]);
    // Roots are exactly 2 and 4; an interval with both as endpoints
    // excludes them, so the ray reports no hit.
    let c = trace_ray(v(0, 0, 0), v(0, 0, 1), 2 * SCALE, 4 * SCALE, &scene);
    assert_eq!(c, white());
}

#[test]
fn directional_light_adds_cosine_term() {
    let scene = scene_of(
        vec![],
        vec![Light::Directional { intensity: 600_000, direction: v(0, 0, 1) }],
    );
    // Normal parallel to the light direction: full cosine, one.
    let i = compute_lighting(v(0, 0, 3), v(0, 0, 1), &scene);
    assert_eq!(i, 600_000);
}

#[test]
fn point_light_adds_cosine_term() {
    let scene = scene_of(
        vec![],
        vec![Light::Point { intensity: 500_000, position: v(0, 0, 8) }],
    );
    // Light vector (0, 0, 5) is parallel to the normal: full cosine.
    let i = compute_lighting(v(0, 0, 3), v(0, 0, 1), &scene);
    assert_eq!(i, 500_000);
}

#[test]
fn light_behind_surface_contributes_nothing() {
    let scene = scene_of(
        vec![],
        vec![Light::Directional { intensity: 600_000, direction: v(0, 0, -1) }],
    );
    let i = compute_lighting(v(0, 0, 3), v(0, 0, 1), &scene);
    assert_eq!(i, 0);
}

#[test]
fn lighting_accumulates_in_order() {
    let scene = scene_of(
        vec![],
        vec![
            Light::Ambient { intensity: 200_000 },
            Light::Directional { intensity: 600_000, direction: v(0, 0, 1) },
        ],
    );
    let i = compute_lighting(v(0, 0, 3), v(0, 0, 1), &scene);
    assert_eq!(i, 800_000);
}

#[test]
fn tiny_vectors_keep_cosine_within_one() {
    // Truncation makes the raw ratio dot/(|n|*|l|) overshoot for
    // milli-unit vectors; the clamped factor stays at one, so a parallel
    // light contributes exactly its intensity.
    let scene = scene_of(
        vec![],
        vec![Light::Directional { intensity: SCALE, direction: Vec3 { x: 1000, y: 1000, z: 0 } }],
    );
    let i = compute_lighting(v(0, 0, 0), Vec3 { x: 1000, y: 1000, z: 0 }, &scene);
    assert_eq!(i, SCALE);
}

#[test]
fn lighting_never_exceeds_total_intensity() {
    let scene = scene_of(
        vec![],
        vec![
            Light::Ambient { intensity: 300_000 },
            Light::Directional { intensity: 400_000, direction: Vec3 { x: 1000, y: 1000, z: 0 } },
        ],
    );
    let i = compute_lighting(v(0, 0, 0), Vec3 { x: 1000, y: 1000, z: 0 }, &scene);
    assert!(0 <= i && i <= 700_000);
    assert_eq!(i, 700_000);
}

#[test]
fn channel_saturates_at_maximum() {
    // Intensity two: 200 * 2 = 400 saturates to the channel maximum.
    assert_eq!(scale_channel(200, 2 * SCALE), 255);
}

#[test]
fn channel_clamps_negative_intensity_to_zero() {
    assert_eq!(scale_channel(200, -SCALE), 0);
}

#[test]
fn projection_maps_center_and_corner() {
    let viewport = Viewport { width: SCALE, height: SCALE, distance: SCALE };
    let center = canvas_2_viewport(0, 0, 800, 600, viewport);
    assert_eq!(center, Vec3 { x: 0, y: 0, z: SCALE });
    let corner = canvas_2_viewport(400, 300, 800, 600, viewport);
    // One viewport unit spans 800 columns: 1250 micro-units per column.
    assert_eq!(corner, Vec3 { x: 400 * 1250, y: 300 * 1666, z: SCALE });
}

#[test]
fn fixed_point_operations_are_exact() {
    assert_eq!(fx_mul(2 * SCALE, 3 * SCALE), 6 * SCALE);
    assert_eq!(fx_div(SCALE, 2 * SCALE), SCALE / 2);
    assert_eq!(fx_sqrt(4 * SCALE), 2 * SCALE);
    assert_eq!(fx_idiv(SCALE, 800), 1250);
    assert_eq!(fx_add(i64::MAX, 1), i64::MAX);
}

#[test]
fn truncating_division_rounds_toward_zero() {
    assert_eq!(fx_idiv(-7, 2), -3);
    assert_eq!(fx_idiv(7, -2), -3);
    assert_eq!(fx_idiv(-7, -2), 3);
}
