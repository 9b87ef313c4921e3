use raytrace_core::hierarchy::GroupRepository;
use raytrace_core::hierarchy::ShapeKind;

#[test]
fn test_new_group() {
    let mut repo = GroupRepository::new();
    let g = repo.new_group();
    assert_eq!(repo.is_empty(g), true);
    assert_eq!(repo.kind(g), ShapeKind::Group);
    assert_eq!(repo.count(), 1);
}

#[test]
fn test_testshape_no_parent() {
    let mut repo = GroupRepository::new();
    let t = repo.new_shape(ShapeKind::TestShape);
    assert_eq!(repo.get_parent(t).is_none(), true);
}

#[test]
fn test_group_add() {
    let mut repo = GroupRepository::new();
    let g = repo.new_group();
    let t = repo.new_shape(ShapeKind::TestShape);
    assert!(repo.add_child(g, t));
    let group = repo.get_group(g).unwrap();
    let parent = repo.get_parent(group.children[0]).unwrap();
    assert_eq!(parent, g);
    assert_eq!(group.id, g);
    assert_eq!(group.children, vec![t]);
    assert_eq!(repo.is_empty(g), false);
}

#[test]
fn handles_count_up_from_zero() {
    let mut repo = GroupRepository::new();
    assert_eq!(repo.count(), 0);
    assert_eq!(repo.new_group(), 0);
    assert_eq!(repo.new_shape(ShapeKind::Cone), 1);
    assert_eq!(repo.new_group(), 2);
    assert_eq!(repo.kind(1), ShapeKind::Cone);
}

#[test]
fn children_stay_in_the_order_added() {
    let mut repo = GroupRepository::new();
    let g = repo.new_group();
    let s1 = repo.new_shape(ShapeKind::Sphere);
    let s2 = repo.new_shape(ShapeKind::Sphere);
    let s3 = repo.new_shape(ShapeKind::Sphere);
    assert!(repo.add_child(g, s2));
    assert!(repo.add_child(g, s1));
    assert!(repo.add_child(g, s3));
    assert_eq!(repo.get_group(g).unwrap().children, vec![s2, s1, s3]);
}

#[test]
fn path_into_a_nested_sphere() {
    // A sphere in a group in a group: a world point passes the outer
    // group first, then the inner one, then the sphere.
    let mut repo = GroupRepository::new();
    let s = repo.new_shape(ShapeKind::Sphere);
    let g2 = repo.new_group();
    assert!(repo.add_child(g2, s));
    let g1 = repo.new_group();
    assert!(repo.add_child(g1, g2));
    assert_eq!(repo.world_to_object_path(s), vec![g1, g2, s]);
    assert_eq!(repo.ancestors(s), vec![g2, g1]);
    assert_eq!(repo.root(s), g1);
}

#[test]
fn path_out_of_a_nested_sphere() {
    let mut repo = GroupRepository::new();
    let s = repo.new_shape(ShapeKind::Sphere);
    let g2 = repo.new_group();
    assert!(repo.add_child(g2, s));
    let g1 = repo.new_group();
    assert!(repo.add_child(g1, g2));
    assert_eq!(repo.normal_to_world_path(s), vec![s, g2, g1]);
}

#[test]
fn the_two_paths_mirror_each_other() {
    let mut repo = GroupRepository::new();
    let mut inner = repo.new_shape(ShapeKind::Cube);
    let leaf = inner;
    for _ in 0..5 {
        let g = repo.new_group();
        assert!(repo.add_child(g, inner));
        inner = g;
    }
    let mut down = repo.world_to_object_path(leaf);
    down.reverse();
    assert_eq!(down, repo.normal_to_world_path(leaf));
    assert_eq!(down.len(), 6);
}

#[test]
fn a_shape_without_a_group_is_its_own_path() {
    let mut repo = GroupRepository::new();
    let p = repo.new_shape(ShapeKind::Plane);
    assert_eq!(repo.world_to_object_path(p), vec![p]);
    assert_eq!(repo.normal_to_world_path(p), vec![p]);
    assert_eq!(repo.ancestors(p), vec![]);
    assert_eq!(repo.root(p), p);
}

#[test]
fn add_child_refuses_a_cycle() {
    let mut repo = GroupRepository::new();
    let g1 = repo.new_group();
    let g2 = repo.new_group();
    let g3 = repo.new_group();
    assert!(!repo.add_child(g1, g1));
    assert!(repo.add_child(g1, g2));
    assert!(repo.add_child(g2, g3));
    assert!(!repo.add_child(g3, g1));
    assert!(!repo.add_child(g2, g1));
    assert_eq!(repo.get_parent(g1), None);
    assert_eq!(repo.get_group(g3).unwrap().children, vec![]);
    assert_eq!(repo.ancestors(g3), vec![g2, g1]);
}

#[test]
fn add_child_refuses_what_is_not_there() {
    let mut repo = GroupRepository::new();
    let g = repo.new_group();
    let s = repo.new_shape(ShapeKind::Sphere);
    let t = repo.new_shape(ShapeKind::Cylinder);
    assert!(!repo.add_child(g, 17));
    assert!(!repo.add_child(17, s));
    // Only a group has children.
    assert!(!repo.add_child(s, t));
    assert!(repo.add_child(g, s));
    // A shape has one parent.
    let h = repo.new_group();
    assert!(!repo.add_child(h, s));
    assert!(!repo.add_child(g, s));
    assert_eq!(repo.get_parent(s), Some(g));
    assert_eq!(repo.get_group(g).unwrap().children, vec![s]);
    assert!(repo.is_empty(h));
}

#[test]
fn groups_can_be_built_from_the_leaves_up() {
    let mut repo = GroupRepository::new();
    let corner = repo.new_shape(ShapeKind::Sphere);
    let edge = repo.new_shape(ShapeKind::Cylinder);
    let side = repo.new_group();
    assert!(repo.add_child(side, corner));
    assert!(repo.add_child(side, edge));
    let hexagon = repo.new_group();
    assert!(repo.add_child(hexagon, side));
    assert_eq!(repo.ancestors(edge), vec![side, hexagon]);
    assert_eq!(repo.get_group(hexagon).unwrap().parent, None);
    assert_eq!(repo.get_group(side).unwrap().parent, Some(hexagon));
}

#[test]
fn get_group_is_for_groups() {
    let mut repo = GroupRepository::new();
    let s = repo.new_shape(ShapeKind::Sphere);
    assert!(repo.get_group(s).is_none());
    assert!(repo.get_group(5).is_none());
}

#[test]
fn round_trip_through_nested_groups() {
    // Each shape shifts and scales a number; the step out undoes the
    // step in.
    let mut repo = GroupRepository::new();
    let leaf = repo.new_shape(ShapeKind::Cone);
    let mut inner = leaf;
    for _ in 0..4 {
        let g = repo.new_group();
        assert!(repo.add_child(g, inner));
        inner = g;
    }
    let shift = |s: usize| (s as i64 + 1) * 7;
    let scale = |s: usize| s as i64 + 2;
    let world_point: i64 = 123_456;
    let mut p = world_point;
    for s in repo.world_to_object_path(leaf) {
        p = (p - shift(s)) * scale(s);
    }
    assert_ne!(p, world_point);
    for s in repo.normal_to_world_path(leaf) {
        p = p / scale(s) + shift(s);
    }
    assert_eq!(p, world_point);
}
