//! Tests for the hierarchy builder: structure, determinism and localization.

use orbits::body::{Body, Preset};
use orbits::scalar::Scalar;
use orbits::tree::{build_hierarchy, BodyTree, HierarchyError};
use orbits::vector::Position;

fn s2f(s: &Scalar) -> f64 {
    let v = (s.mant as f64) * 2f64.powi(s.exp as i32);
    if s.neg {
        -v
    } else {
        v
    }
}

fn abs_of(tree: &BodyTree, i: usize) -> (f64, f64) {
    (
        s2f(&tree.bodies[i].absolute_pos.x),
        s2f(&tree.bodies[i].absolute_pos.y),
    )
}

/// Sum the local positions up the parent chain from the root down to `i`.
fn reconstructed_abs(tree: &BodyTree, i: usize) -> (f64, f64) {
    let mut x = 0f64;
    let mut y = 0f64;
    let mut cur = Some(i);
    while let Some(c) = cur {
        x += s2f(&tree.bodies[c].pos.x);
        y += s2f(&tree.bodies[c].pos.y);
        cur = tree.parent[c];
    }
    (x, y)
}

#[test]
fn sun_earth_moon_groups_in_two_levels() {
    let preset = Preset::sun_earth_moon();
    let tree = build_hierarchy(&preset.bodies).unwrap();
    // sun, earth, moon leaves; an earth-moon barycenter; the final root
    assert_eq!(tree.bodies.len(), 5);
    assert_eq!(tree.root, 4);
    assert_eq!(tree.parent[0], Some(4)); // sun under the root
    assert_eq!(tree.parent[1], Some(3)); // earth under the earth-moon group
    assert_eq!(tree.parent[2], Some(3)); // moon under the earth-moon group
    assert_eq!(tree.parent[3], Some(4));
    assert_eq!(tree.parent[4], None);
    assert!(tree.bodies[3].is_barycenter);
    assert!(tree.bodies[4].is_barycenter);
    assert_eq!(tree.bodies[3].name, "Earth+Moon");
}

#[test]
fn comparable_mass_is_required_for_grouping() {
    // the satellite is far lighter than Earth, so no pair group forms:
    // both leaves hang off the final root
    let preset = &Preset::defaults()[0];
    let tree = build_hierarchy(&preset.bodies).unwrap();
    assert_eq!(tree.bodies.len(), 3);
    assert_eq!(tree.parent[0], Some(2));
    assert_eq!(tree.parent[1], Some(2));
    assert_eq!(tree.parent[2], None);
}

#[test]
fn single_body_is_its_own_root() {
    let bodies = vec![Body::earth()];
    let tree = build_hierarchy(&bodies).unwrap();
    assert_eq!(tree.bodies.len(), 1);
    assert_eq!(tree.root, 0);
    assert_eq!(tree.parent[0], None);
    assert!(!tree.bodies[0].is_barycenter);
}

#[test]
fn localization_round_trips_up_the_parent_chain() {
    let preset = Preset::hierarchy_test();
    let tree = build_hierarchy(&preset.bodies).unwrap();
    for i in 0..tree.bodies.len() {
        let (ax, ay) = abs_of(&tree, i);
        let (rx, ry) = reconstructed_abs(&tree, i);
        let scale = ax.abs().max(ay.abs()).max(1.0);
        assert!(
            ((ax - rx).abs() + (ay - ry).abs()) / scale < 1e-9,
            "node {} reconstructs to ({}, {}) instead of ({}, {})",
            i,
            rx,
            ry,
            ax,
            ay
        );
    }
}

#[test]
fn rebuilding_from_the_same_list_is_identical() {
    let preset = Preset::hierarchy_test();
    let t1 = build_hierarchy(&preset.bodies).unwrap();
    let t2 = build_hierarchy(&preset.bodies).unwrap();
    assert_eq!(t1.parent, t2.parent);
    assert_eq!(t1.root, t2.root);
    assert_eq!(t1.bodies.len(), t2.bodies.len());
    for i in 0..t1.bodies.len() {
        assert_eq!(t1.bodies[i].name, t2.bodies[i].name);
        assert_eq!(t1.bodies[i].mass, t2.bodies[i].mass);
        assert_eq!(t1.bodies[i].pos.x, t2.bodies[i].pos.x);
        assert_eq!(t1.bodies[i].pos.y, t2.bodies[i].pos.y);
        assert_eq!(t1.bodies[i].absolute_pos.x, t2.bodies[i].absolute_pos.x);
        assert_eq!(t1.bodies[i].absolute_pos.y, t2.bodies[i].absolute_pos.y);
    }
}

#[test]
fn equal_distance_ties_break_by_index() {
    // two equal bodies at the same distance from a central heavy one; the
    // tie-break keeps node-index order, so the tree is the same every time
    let mut center = Body::blank();
    center.name = "center".to_string();
    center.mass = Scalar::from_int(1_000_000_000_000_000_000_000);
    let mut left = Body::blank();
    left.name = "left".to_string();
    left.mass = Scalar::from_int(100_000_000_000_000_000_000);
    left.absolute_pos = Position::new(Scalar::from_int(-7000), Scalar::from_int(0));
    let mut right = Body::blank();
    right.name = "right".to_string();
    right.mass = Scalar::from_int(100_000_000_000_000_000_000);
    right.absolute_pos = Position::new(Scalar::from_int(7000), Scalar::from_int(0));

    let bodies = vec![center, left, right];
    let t1 = build_hierarchy(&bodies).unwrap();
    let t2 = build_hierarchy(&bodies).unwrap();
    assert_eq!(t1.parent, t2.parent);
    for i in 0..t1.bodies.len() {
        assert_eq!(t1.bodies[i].name, t2.bodies[i].name);
    }
}

#[test]
fn vanished_group_mass_is_reported() {
    let mut a = Body::blank();
    a.absolute_pos = Position::new(Scalar::from_int(0), Scalar::from_int(0));
    let mut b = Body::blank();
    b.absolute_pos = Position::new(Scalar::from_int(1000), Scalar::from_int(0));
    let r = build_hierarchy(&vec![a, b]);
    assert_eq!(r.unwrap_err(), HierarchyError::DegenerateMass);
}

/// Grouping is invariant under input permutations, equal distances and masses
/// included: each leaf ends up grouped with the same partner bodies, only the
/// leaf indices move with the permutation.
#[test]
fn permuted_input_groups_the_same_bodies() {
    let mk = |name: &str, x: i128, y: i128| {
        let mut b = Body::blank();
        b.name = name.to_string();
        b.mass = Scalar::from_int(1_000_000_000_000_000_000_000);
        b.absolute_pos = Position::new(Scalar::from_int(x), Scalar::from_int(y));
        b
    };
    // two tight pairs with identical separations, far from each other
    let bodies1 = vec![
        mk("a1", 0, 0),
        mk("a2", 100, 0),
        mk("b1", 1_000_000, 0),
        mk("b2", 1_000_100, 0),
    ];
    let bodies2 = vec![
        mk("b2", 1_000_100, 0),
        mk("b1", 1_000_000, 0),
        mk("a2", 100, 0),
        mk("a1", 0, 0),
    ];
    let t1 = build_hierarchy(&bodies1).unwrap();
    let t2 = build_hierarchy(&bodies2).unwrap();

    // the set of leaf names sharing a leaf's parent, for a named leaf
    let partners = |t: &BodyTree, name: &str| -> Vec<String> {
        let idx = t.bodies.iter().position(|b| b.name == name).unwrap();
        let parent = t.parent[idx].unwrap();
        let mut group: Vec<String> = (0..t.bodies.len())
            .filter(|&j| t.parent[j] == Some(parent) && !t.bodies[j].is_barycenter)
            .map(|j| t.bodies[j].name.clone())
            .collect();
        group.sort();
        group
    };
    for name in ["a1", "a2", "b1", "b2"] {
        assert_eq!(partners(&t1, name), partners(&t2, name), "leaf {}", name);
    }
}
