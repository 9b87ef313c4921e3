use raytrace_core::intersection::dedup_by_t;
use raytrace_core::intersection::gather;
use raytrace_core::intersection::group_intersections;
use raytrace_core::intersection::hit;
use raytrace_core::intersection::is_shadowed;
use raytrace_core::intersection::positive_hits;
use raytrace_core::intersection::sort_by_t;
use raytrace_core::intersection::world_intersections;
use raytrace_core::intersection::Intersection;
use raytrace_core::intersection::Intersections;
use raytrace_core::material::Color;
use raytrace_core::material::Material;
use raytrace_core::scalar::scalar_eq;
use raytrace_core::scalar::EPSILON;
use raytrace_core::scalar::TICKS_PER_UNIT;

const ONE: i64 = TICKS_PER_UNIT;

fn ticks(units: f64) -> i64 {
    (units * ONE as f64).round() as i64
}

fn ts(xs: &Vec<Intersection>) -> Vec<i64> {
    xs.iter().map(|i| i.t).collect()
}

#[test]
fn ch05_intersection_new() {
    let i = Intersection::new(3, ticks(3.5));
    assert_eq!(i.obj, 3);
    assert_eq!(i.t, 3_500_000_000);
}

#[test]
fn test_hit() {
    let s = 0;
    let i1 = Intersection { obj: s, t: ticks(1.0) };
    let i2 = Intersection { obj: s, t: ticks(2.0) };
    let intersections: Intersections = vec![i2, i1];
    let i = hit(&intersections).unwrap();
    assert!(i.obj == s);
    assert!(scalar_eq(i.t, ticks(1.0)));
    assert_eq!(i.t, ONE);
}

#[test]
fn test_hit_negative() {
    let s = 0;
    let i1 = Intersection { obj: s, t: ticks(-1.0) };
    let i2 = Intersection { obj: s, t: ticks(1.0) };
    let intersections: Intersections = vec![i2, i1];
    let i = hit(&intersections).unwrap();
    assert!(i.obj == s);
    assert_eq!(i.t, ONE);
}

#[test]
fn test_hit_all_negative() {
    let s = 0;
    let i1 = Intersection { obj: s, t: ticks(-1.0) };
    let i2 = Intersection { obj: s, t: ticks(-2.0) };
    let intersections: Intersections = vec![i2, i1];
    let i = hit(&intersections);
    assert!(i.is_none());
}

#[test]
fn hit_of_nothing_is_none() {
    assert!(hit(&vec![]).is_none());
}

#[test]
fn hit_takes_zero_as_in_front() {
    let xs = vec![Intersection::new(1, 5), Intersection::new(2, 0), Intersection::new(3, -1)];
    assert_eq!(hit(&xs), Some(Intersection::new(2, 0)));
}

#[test]
fn hit_is_lowest_non_negative_of_many() {
    let xs = vec![
        Intersection::new(0, ticks(5.0)),
        Intersection::new(1, ticks(7.0)),
        Intersection::new(2, ticks(-3.0)),
        Intersection::new(3, ticks(2.0)),
    ];
    assert_eq!(hit(&xs), Some(Intersection::new(3, ticks(2.0))));
}

#[test]
fn hit_among_equal_t_is_the_earlier_one() {
    let xs = vec![Intersection::new(7, ONE), Intersection::new(8, ONE)];
    assert_eq!(hit(&xs).unwrap().obj, 7);
}

#[test]
fn sort_orders_by_t_and_keeps_ties_in_place() {
    let xs = vec![
        Intersection::new(0, 30),
        Intersection::new(1, 10),
        Intersection::new(2, 20),
        Intersection::new(3, 10),
        Intersection::new(4, -5),
    ];
    let r = sort_by_t(&xs);
    assert_eq!(
        r,
        vec![
            Intersection::new(4, -5),
            Intersection::new(1, 10),
            Intersection::new(3, 10),
            Intersection::new(2, 20),
            Intersection::new(0, 30),
        ]
    );
    assert_eq!(xs.len(), 5);
}

#[test]
fn sort_handles_extremes() {
    let xs = vec![Intersection::new(0, i64::MAX), Intersection::new(1, i64::MIN)];
    assert_eq!(ts(&sort_by_t(&xs)), vec![i64::MIN, i64::MAX]);
    assert_eq!(sort_by_t(&vec![]), vec![]);
}

#[test]
fn positive_hits_drops_what_is_behind() {
    let xs = vec![
        Intersection::new(0, ticks(6.0)),
        Intersection::new(0, ticks(-4.0)),
        Intersection::new(1, ticks(0.5)),
        Intersection::new(1, ticks(-0.5)),
    ];
    let r = positive_hits(&xs);
    assert_eq!(r, vec![Intersection::new(1, ticks(0.5)), Intersection::new(0, ticks(6.0))]);
}

#[test]
fn dedup_keeps_first_of_close_neighbours() {
    let xs = vec![
        Intersection::new(0, ONE),
        Intersection::new(1, ONE + EPSILON - 1),
        Intersection::new(2, ONE + EPSILON),
        Intersection::new(3, ONE + 2 * EPSILON - 1),
        Intersection::new(4, ONE + 2 * EPSILON),
    ];
    let r = dedup_by_t(&xs);
    assert_eq!(
        r,
        vec![
            Intersection::new(0, ONE),
            Intersection::new(2, ONE + EPSILON),
            Intersection::new(4, ONE + 2 * EPSILON),
        ]
    );
}

#[test]
fn dedup_compares_with_the_element_kept_last() {
    // The third is close to the second, which was dropped, but not to the first.
    let xs = vec![
        Intersection::new(0, 0),
        Intersection::new(1, EPSILON - 1),
        Intersection::new(2, 2 * EPSILON - 2),
    ];
    assert_eq!(ts(&dedup_by_t(&xs)), vec![0, 2 * EPSILON - 2]);
}

#[test]
fn gather_joins_in_order() {
    let lists = vec![
        vec![Intersection::new(0, 4), Intersection::new(0, 6)],
        vec![],
        vec![Intersection::new(2, 1)],
    ];
    assert_eq!(ts(&gather(&lists)), vec![4, 6, 1]);
}

#[test]
fn world_answers_in_order_of_t() {
    // The two spheres of the default scene, met by a ray along z from z = -5.
    let outer = vec![Intersection::new(0, ticks(4.0)), Intersection::new(0, ticks(6.0))];
    let inner = vec![Intersection::new(1, ticks(4.5)), Intersection::new(1, ticks(5.5))];
    let xs = world_intersections(&vec![outer, inner]);
    assert_eq!(xs.len(), 4);
    assert_eq!(ts(&xs), vec![ticks(4.0), ticks(4.5), ticks(5.5), ticks(6.0)]);
}

#[test]
fn world_intersections_merge_shared_t() {
    let a = vec![Intersection::new(0, ticks(1.0)), Intersection::new(0, ticks(3.0))];
    let b = vec![Intersection::new(1, ticks(3.0) + 5), Intersection::new(1, ticks(2.0))];
    let xs = world_intersections(&vec![a, b]);
    assert_eq!(
        xs,
        vec![
            Intersection::new(0, ticks(1.0)),
            Intersection::new(1, ticks(2.0)),
            Intersection::new(0, ticks(3.0)),
        ]
    );
}

#[test]
fn group_answers_in_order_of_t() {
    // Three spheres in a group; the ray meets the first and the second.
    let s1 = vec![Intersection::new(1, ticks(4.0)), Intersection::new(1, ticks(6.0))];
    let s2 = vec![Intersection::new(2, ticks(1.0)), Intersection::new(2, ticks(3.0))];
    let s3 = vec![];
    let xs = group_intersections(&vec![s1, s2, s3]);
    assert_eq!(xs.len(), 4);
    assert_eq!(xs[0].obj, 2);
    assert_eq!(xs[1].obj, 2);
    assert_eq!(xs[2].obj, 1);
    assert_eq!(xs[3].obj, 1);
}

#[test]
fn group_intersections_keep_shared_t() {
    let a = vec![Intersection::new(0, 7)];
    let b = vec![Intersection::new(1, 7)];
    assert_eq!(group_intersections(&vec![a, b]).len(), 2);
}

fn default_world_materials() -> Vec<Material> {
    let mut m1 = Material::new(Color::new(800_000_000, ONE, 600_000_000));
    m1.diffuse = 700_000_000;
    m1.specular = 200_000_000;
    vec![m1, Material::default()]
}

fn through_origin(distance: f64) -> Vec<Intersection> {
    world_intersections(&vec![
        vec![Intersection::new(0, ticks(distance - 1.0)), Intersection::new(0, ticks(distance + 1.0))],
        vec![Intersection::new(1, ticks(distance - 0.5)), Intersection::new(1, ticks(distance + 0.5))],
    ])
}

#[test]
fn shadow_when_the_spheres_stand_before_the_light() {
    // From (10,-10,10) to the light at (-10,10,-10) the ray passes the origin.
    let xs = through_origin(300.0f64.sqrt());
    assert!(is_shadowed(&xs, ticks(1200.0f64.sqrt()), &default_world_materials()));
}

#[test]
fn no_shadow_when_the_light_stands_before_the_spheres() {
    let xs = through_origin(1200.0f64.sqrt());
    assert!(!is_shadowed(&xs, ticks(300.0f64.sqrt()), &default_world_materials()));
}

#[test]
fn no_shadow_when_the_spheres_stand_behind_the_point() {
    let xs = through_origin(-(12.0f64.sqrt()));
    assert!(!is_shadowed(&xs, ticks(192.0f64.sqrt()), &default_world_materials()));
}

#[test]
fn shadow_skips_shapes_that_cast_none() {
    let mut materials = default_world_materials();
    let xs = vec![Intersection::new(0, ticks(2.0))];
    assert!(is_shadowed(&xs, ticks(5.0), &materials));
    materials[0].no_cast_shadow = true;
    assert!(!is_shadowed(&xs, ticks(5.0), &materials));
    // A later intersection of a shape that does cast still counts.
    let xs = vec![Intersection::new(0, ticks(2.0)), Intersection::new(1, ticks(3.0))];
    assert!(is_shadowed(&xs, ticks(5.0), &materials));
}

#[test]
fn shadow_needs_something_nearer_than_the_light() {
    let materials = default_world_materials();
    let xs = vec![Intersection::new(0, ticks(5.0))];
    assert!(!is_shadowed(&xs, ticks(5.0), &materials));
    assert!(is_shadowed(&xs, ticks(5.0) + 1, &materials));
    assert!(is_shadowed(&vec![Intersection::new(0, 0)], 1, &materials));
    // A shape without a listed material has the default one, which casts.
    assert!(is_shadowed(&vec![Intersection::new(9, 1)], 2, &materials));
}

#[test]
fn scalars_are_close_below_epsilon() {
    assert!(scalar_eq(0, EPSILON - 1));
    assert!(scalar_eq(EPSILON - 1, 0));
    assert!(!scalar_eq(0, EPSILON));
    assert!(!scalar_eq(-EPSILON, 0));
    assert!(scalar_eq(-5, 5));
    assert!(!scalar_eq(i64::MIN, i64::MAX));
    assert!(!scalar_eq(i64::MAX, i64::MIN));
    assert!(scalar_eq(i64::MIN, i64::MIN + 1));
}

#[test]
fn ch5_intersection_new() {
    let s = 0;
    let intersection = Intersection { obj: s, t: ticks(3.5) };
    assert_eq!(intersection.obj, s);
    assert!(scalar_eq(intersection.t, ticks(3.5)));
}
