use ascii_render::geom::{Object3d, Ray, Sphere, Trig};
use ascii_render::render::{Camera, Play};
use ascii_render::shade::{cast_ray, Light};
use ascii_render::vec3::Vec3;
use ascii_render::FP;

fn v(x: i64, y: i64, z: i64) -> Vec3 {
    Vec3 { x, y, z }
}

fn axial_ray() -> Ray {
    Ray { pos: v(0, 0, 0), dir: v(0, 0, FP) }
}

#[test]
fn sphere_axial_hit_distance_is_exact() {
    // A ray aimed straight at the center from outside: distance to center
    // minus radius, exactly, in sub-units.
    let s = Sphere { pos: v(0, 0, 5 * FP), rad: FP };
    let r = axial_ray();
    assert!(s.is_ray_intersect(&r));
    assert_eq!(s.give_t(&r), 4 * FP);
}

#[test]
fn sphere_intersects_iff_hit_distance_nonnegative() {
    let s = Sphere { pos: v(0, 0, 5 * FP), rad: FP };
    let hit = axial_ray();
    assert!(s.is_ray_intersect(&hit));
    assert!(s.give_t(&hit) >= 0);
    let away = Ray { pos: v(0, 0, 0), dir: v(0, 0, -FP) };
    assert!(!s.is_ray_intersect(&away));
    assert!(s.give_t(&away) < 0);
}

#[test]
fn sphere_behind_origin_counts_no_hit() {
    // Both roots negative: the sphere sits behind the ray origin.
    let s = Sphere { pos: v(0, 0, -5 * FP), rad: FP };
    let r = axial_ray();
    assert!(!s.is_ray_intersect(&r));
    assert_eq!(s.give_t(&r), -1);
}

#[test]
fn sphere_perpendicular_miss_is_dark() {
    // Perpendicular offset (3 units) beyond the radius (1 unit): no
    // intersection and zero brightness.
    let s = Sphere { pos: v(0, 3 * FP, 5 * FP), rad: FP };
    let r = axial_ray();
    assert!(!s.is_ray_intersect(&r));
    assert_eq!(s.give_t(&r), -1);
    let lights = vec![Light { pos: v(0, 0, 2 * FP), intensity: FP }];
    let objs = vec![Object3d::Sphere(Sphere { pos: v(0, 3 * FP, 5 * FP), rad: FP })];
    assert_eq!(s.get_ray_brightness(&r, &lights, &objs), 0);
}

#[test]
fn triangle_down_z_axis_hits_at_unit_distance() {
    // Vertices (0,0,0), (1,0,0), (0,1,0); ray from (0.25, 0.25, -1)
    // straight down the z axis: hit after exactly one unit, at
    // (0.25, 0.25, 0).
    let t = Trig { v0: v(0, 0, 0), v1: v(FP, 0, 0), v2: v(0, FP, 0) };
    let r = Ray { pos: v(FP / 4, FP / 4, -FP), dir: v(0, 0, FP) };
    assert!(t.is_ray_intersect(&r));
    assert_eq!(t.give_t(&r), FP);
}

#[test]
fn triangle_outside_its_edges_misses() {
    let t = Trig { v0: v(0, 0, 0), v1: v(FP, 0, 0), v2: v(0, FP, 0) };
    // The plane is hit, but on the far side of the hypotenuse: the
    // distance query agrees with the intersection test and reports the
    // miss sentinel.
    let r = Ray { pos: v(FP, FP, -FP), dir: v(0, 0, FP) };
    assert!(!t.is_ray_intersect(&r));
    assert_eq!(t.give_t(&r), -1);
}

#[test]
fn sphere_surface_grazing_start_is_no_hit() {
    // Origin exactly on the surface: pointing away there is no positive
    // root, so no hit; pointing inward the ray crosses the whole sphere
    // and exits after one diameter.
    let s = Sphere { pos: v(0, 0, 5 * FP), rad: FP };
    let outward = Ray { pos: v(0, 0, 4 * FP), dir: v(0, 0, -FP) };
    assert!(!s.is_ray_intersect(&outward));
    assert_eq!(s.give_t(&outward), -1);
    let inward = Ray { pos: v(0, 0, 4 * FP), dir: v(0, 0, FP) };
    assert!(s.is_ray_intersect(&inward));
    assert_eq!(s.give_t(&inward), 2 * FP);
}

#[test]
fn occluded_light_contributes_nothing() {
    // A small sphere sits between the lit sphere's surface and the light:
    // the only light is blocked, so brightness collapses to zero.
    let lit = Sphere { pos: v(0, 0, 5 * FP), rad: FP };
    let blocker = Sphere { pos: v(0, 0, 3 * FP), rad: FP / 2 };
    let r = axial_ray();
    let lights = vec![Light { pos: v(0, 0, 2 * FP), intensity: FP }];
    let occluded_scene = vec![
        Object3d::Sphere(Sphere { pos: v(0, 0, 5 * FP), rad: FP }),
        Object3d::Sphere(Sphere { pos: v(0, 0, 3 * FP), rad: FP / 2 }),
    ];
    assert!(blocker.is_ray_intersect(&Ray { pos: v(0, 0, 4 * FP - 8), dir: v(0, 0, -FP) }));
    assert_eq!(lit.get_ray_brightness(&r, &lights, &occluded_scene), 0);
}

#[test]
fn unoccluded_light_contributes_intensity_times_dot() {
    // Same configuration without the blocker: intensity * dot(-dir,
    // light - hit) / FP^3 = 1024 * (1024 * 2048) / 2^30 = 2.
    let lit = Sphere { pos: v(0, 0, 5 * FP), rad: FP };
    let r = axial_ray();
    let lights = vec![Light { pos: v(0, 0, 2 * FP), intensity: FP }];
    let open_scene = vec![Object3d::Sphere(Sphere { pos: v(0, 0, 5 * FP), rad: FP })];
    assert_eq!(lit.get_ray_brightness(&r, &lights, &open_scene), 2);
}

#[test]
fn cast_ray_picks_nearest_primitive() {
    // Two spheres on the axis; the cast must shade the nearer one, whose
    // front face is lit, rather than the farther (shadowed) one.
    let near = Object3d::Sphere(Sphere { pos: v(0, 0, 5 * FP), rad: FP });
    let far = Object3d::Sphere(Sphere { pos: v(0, 0, 20 * FP), rad: FP });
    let r = axial_ray();
    let lights = vec![Light { pos: v(0, 0, 2 * FP), intensity: FP }];
    let objs = vec![far, near];
    // The nearer sphere's brightness alone, for comparison.
    let solo = Sphere { pos: v(0, 0, 5 * FP), rad: FP };
    let solo_scene = vec![
        Object3d::Sphere(Sphere { pos: v(0, 0, 20 * FP), rad: FP }),
        Object3d::Sphere(Sphere { pos: v(0, 0, 5 * FP), rad: FP }),
    ];
    let expect = solo.get_ray_brightness(&r, &lights, &solo_scene);
    assert_eq!(cast_ray(&objs, &lights, &r), expect);
    assert_eq!(expect, 2);
}

#[test]
fn cast_ray_empty_scene_is_dark() {
    let objs: Vec<Object3d> = Vec::new();
    let lights = vec![Light { pos: v(0, 0, 2 * FP), intensity: FP }];
    assert_eq!(cast_ray(&objs, &lights, &axial_ray()), 0);
}

#[test]
fn clamp_is_idempotent_and_in_range() {
    let p = Play::new(4, 4);
    for b in [-1000000000i64, -5, -1, 0, 1, 8, 16, 17, 100, 9000000000000000000] {
        let c = p.clamp(b);
        assert!(c <= 16);
        assert_eq!(p.clamp(c as i64), c);
    }
    assert_eq!(p.clamp(-7), 0);
    assert_eq!(p.clamp(0), 0);
    assert_eq!(p.clamp(3), 3);
    assert_eq!(p.clamp(16), 16);
    assert_eq!(p.clamp(17), 16);
    assert_eq!(p.clamp(i64::MAX), 16);
    assert_eq!(p.clamp(i64::MIN), 0);
}

#[test]
fn new_screen_has_unit_brightness_and_full_ramp() {
    let p = Play::new(3, 2);
    assert_eq!(p.width, 3);
    assert_eq!(p.height, 2);
    let ramp: Vec<char> = " .:!/r(l1Z4H9W8$@".chars().collect();
    assert_eq!(p.gradient, ramp);
    for row in &p.brightness {
        assert_eq!(row.len(), 3);
        for cell in row {
            assert_eq!(*cell, 1);
        }
    }
}

#[test]
fn single_sphere_frame_is_brightest_at_center() {
    // End to end: a sphere on the camera axis with the light in front of
    // it. The frame's center cell must be strictly brighter than its
    // corner cells, which see empty background.
    let mut p = Play::new(9, 9);
    let objs = vec![Object3d::Sphere(Sphere { pos: v(0, 0, 5 * FP), rad: 2 * FP })];
    let lights = vec![Light { pos: v(0, 0, -5 * FP), intensity: FP }];
    let cam = Camera { pos: v(0, 0, 0), dir: v(0, 0, FP) };
    p.render_scene(&objs, &lights, &cam);
    let center = p.brightness[4][4];
    let corner = p.brightness[0][0];
    assert!(center > 0);
    assert_eq!(corner, 0);
    assert!(center > corner);
    assert_eq!(p.brightness[0][8], 0);
    assert_eq!(p.brightness[8][0], 0);
    assert_eq!(p.brightness[8][8], 0);
}

#[test]
fn frame_text_shape_and_background() {
    let mut p = Play::new(5, 3);
    let objs: Vec<Object3d> = Vec::new();
    let lights: Vec<Light> = Vec::new();
    let cam = Camera { pos: v(0, 0, 0), dir: v(0, 0, FP) };
    p.render_scene(&objs, &lights, &cam);
    let text = p.render_frame();
    assert_eq!(text.len(), 3 * (5 + 1));
    let s: String = text.iter().collect();
    for line in s.lines() {
        assert_eq!(line, "     ");
    }
}

#[test]
fn hardcoded_cube_scene_renders_something() {
    // The cube scene seen by the hardcoded camera: the frame contains both
    // background and lit cells.
    let mut p = Play::new(16, 16);
    p.render(0);
    let mut dark = 0usize;
    let mut lit = 0usize;
    for row in &p.brightness {
        for cell in row {
            if *cell <= 0 {
                dark += 1;
            } else {
                lit += 1;
            }
        }
    }
    assert!(dark > 0);
    assert!(lit > 0);
}

#[test]
fn empty_screen_renders_empty_text() {
    let mut p = Play::new(0, 0);
    p.render(0);
    assert_eq!(p.render_frame().len(), 0);
}

#[test]
fn degenerate_triangle_never_hits() {
    // All three vertices coincide: the plane normal vanishes, every ray
    // counts as parallel.
    let t = Trig { v0: v(0, 0, 0), v1: v(0, 0, 0), v2: v(0, 0, 0) };
    let r = axial_ray();
    assert_eq!(t.give_t(&r), -1);
    assert!(!t.is_ray_intersect(&r));
}

#[test]
fn zero_direction_ray_hits_nothing() {
    let s = Sphere { pos: v(0, 0, 5 * FP), rad: FP };
    let r = Ray { pos: v(0, 0, 0), dir: v(0, 0, 0) };
    assert!(!s.is_ray_intersect(&r));
    assert_eq!(s.give_t(&r), -1);
}

#[test]
fn get_brightness_matches_cast_over_cube_scene() {
    let cam = Camera { pos: v(2 * FP, 2 * FP, -3 * FP), dir: Vec3 { x: -605, y: -605, z: 605 } };
    let objs = ascii_render::render::cube_scene();
    let lights = ascii_render::render::cube_lights();
    let r = cam.get_ray(0, 0);
    assert_eq!(Play::get_brightness(&cam, 0, 0, 0), cast_ray(&objs, &lights, &r));
}
