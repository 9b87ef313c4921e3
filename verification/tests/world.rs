use raytrace_core::hierarchy::ShapeKind;
use raytrace_core::intersection::Intersection;
use raytrace_core::material::Color;
use raytrace_core::material::Material;
use raytrace_core::world::LightSource;
use raytrace_core::world::World;

fn ticks(units: f64) -> i64 {
    (units * 1e9).round() as i64
}

#[test]
fn lightpoint_new() {
    let l = LightSource::new(Color::new(ticks(1.0), ticks(1.0), ticks(1.0)), ticks(1.0), 0, 0);
    assert_eq!((l.x, l.y, l.z), (ticks(1.0), 0, 0));
    assert_eq!(l.intensity.red, 1_000_000_000);
    assert_eq!(l.intensity.green, 1_000_000_000);
    assert_eq!(l.intensity.blue, 1_000_000_000);
}

#[test]
fn test_default_world() {
    let world: World = Default::default();
    let light = world.light_source();
    assert_eq!(light, LightSource::new(Color::white(), ticks(-10.0), ticks(10.0), ticks(-10.0)));
    assert_eq!(world.top_level(), &vec![0, 1]);
    assert_eq!(world.shapes().count(), 2);
    assert_eq!(world.shapes().kind(0), ShapeKind::Sphere);
    assert_eq!(world.shapes().kind(1), ShapeKind::Sphere);
    let outer = world.get_material(0);
    assert_eq!(outer.color, Color::new(ticks(0.8), ticks(1.0), ticks(0.6)));
    assert_eq!(outer.diffuse, ticks(0.7));
    assert_eq!(outer.specular, ticks(0.2));
    assert_eq!(outer.ambient, ticks(0.1));
    assert_eq!(world.get_material(1), Material::default());
}

#[test]
fn new_world_is_empty() {
    let world = World::new();
    assert_eq!(world.top_level().len(), 0);
    assert_eq!(world.all_materials().len(), 0);
    assert_eq!(world.shapes().count(), 0);
    assert_eq!(world.light_source().intensity, Color::white());
}

#[test]
fn set_light_source_replaces_the_light() {
    let mut world = World::new();
    let light = LightSource::new(Color::new(1, 2, 3), 4, 5, 6);
    world.set_light_source(light);
    assert_eq!(world.light_source(), light);
}

#[test]
fn a_group_has_the_default_material() {
    let mut world = World::new();
    let mut red = Material::default();
    red.color = Color::new(ticks(1.0), 0, 0);
    let g = world.add(ShapeKind::Group, red);
    let s = world.add(ShapeKind::Sphere, red);
    assert_eq!(world.get_material(g), Material::default());
    assert_eq!(world.get_material(s), red);
    let mut glass = Material::default();
    glass.transparency = ticks(1.0);
    world.set_material(g, &glass);
    world.set_material(s, &glass);
    world.set_material(99, &glass);
    assert_eq!(world.get_material(g), Material::default());
    assert_eq!(world.get_material(s), glass);
    assert_eq!(world.get_material(99), Material::default());
    assert_eq!(world.all_materials().len(), 2);
}

#[test]
fn a_child_leaves_the_top_of_the_scene() {
    let mut world = World::new();
    let a = world.add(ShapeKind::Sphere, Material::default());
    let g = world.add(ShapeKind::Group, Material::default());
    let b = world.add(ShapeKind::Cube, Material::default());
    assert_eq!(world.top_level(), &vec![a, g, b]);
    assert!(world.add_child(g, a));
    assert_eq!(world.top_level(), &vec![g, b]);
    assert_eq!(world.shapes().get_parent(a), Some(g));
    assert!(!world.add_child(a, b));
    assert!(!world.add_child(g, a));
    assert!(!world.add_child(g, g));
    assert_eq!(world.top_level(), &vec![g, b]);
    assert_eq!(world.shapes().get_group(g).unwrap().children, vec![a]);
}

#[test]
fn world_intersect_sorts_and_merges() {
    let world: World = Default::default();
    let outer = vec![Intersection::new(0, ticks(4.0)), Intersection::new(0, ticks(6.0))];
    let inner = vec![Intersection::new(1, ticks(4.5)), Intersection::new(1, ticks(5.5))];
    let xs = world.intersect(&vec![inner, outer]);
    let ts: Vec<i64> = xs.iter().map(|i| i.t).collect();
    assert_eq!(ts, vec![ticks(4.0), ticks(4.5), ticks(5.5), ticks(6.0)]);
}

#[test]
fn world_shadow_when_the_spheres_stand_before_the_light() {
    let world: World = Default::default();
    let d = 300.0f64.sqrt();
    let xs = world.intersect(&vec![
        vec![Intersection::new(0, ticks(d - 1.0)), Intersection::new(0, ticks(d + 1.0))],
        vec![Intersection::new(1, ticks(d - 0.5)), Intersection::new(1, ticks(d + 0.5))],
    ]);
    assert!(world.is_shadowed(&xs, ticks(1200.0f64.sqrt())));
}

#[test]
fn world_no_shadow_when_the_light_stands_before_the_spheres() {
    let world: World = Default::default();
    let d = 1200.0f64.sqrt();
    let xs = world.intersect(&vec![
        vec![Intersection::new(0, ticks(d - 1.0)), Intersection::new(0, ticks(d + 1.0))],
        vec![Intersection::new(1, ticks(d - 0.5)), Intersection::new(1, ticks(d + 0.5))],
    ]);
    assert!(!world.is_shadowed(&xs, ticks(300.0f64.sqrt())));
}

#[test]
fn world_no_shadow_when_the_spheres_stand_behind_the_point() {
    let world: World = Default::default();
    let d = -(12.0f64.sqrt());
    let xs = world.intersect(&vec![
        vec![Intersection::new(0, ticks(d - 1.0)), Intersection::new(0, ticks(d + 1.0))],
        vec![Intersection::new(1, ticks(d - 0.5)), Intersection::new(1, ticks(d + 0.5))],
    ]);
    assert!(!world.is_shadowed(&xs, ticks(192.0f64.sqrt())));
}

#[test]
fn a_shape_that_casts_no_shadow_is_passed() {
    let mut world: World = Default::default();
    let mut m = world.get_material(0);
    m.no_cast_shadow = true;
    world.set_material(0, &m);
    assert!(!world.is_shadowed(&vec![Intersection::new(0, 5)], 10));
    assert!(world.is_shadowed(&vec![Intersection::new(0, 5), Intersection::new(1, 6)], 10));
}
