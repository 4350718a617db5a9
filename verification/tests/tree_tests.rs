// Tests of the spatial tree and the integrator.

use barnes_hut::body::{vec2, Body, Object, Vec2};
use barnes_hut::kernel::force_between;
use barnes_hut::num::SCALE;
use barnes_hut::quad::Quad;
use barnes_hut::sim::{bounding_quad, build_tree, net_force_direct, step, SimError};
use barnes_hut::tree::{Agg, BHTree, Node};

fn fx(v: f64) -> i64 {
    (v * (SCALE as f64)).round() as i64
}

fn object_at(x: f64, y: f64, mass: f64) -> Object {
    Object {
        pos: Vec2 { x: fx(x), y: fx(y) },
        vel: Vec2 { x: 0, y: 0 },
        mass: fx(mass),
    }
}

fn leaf_agg(x: f64, y: f64, mass: f64) -> Agg {
    Agg {
        mass: fx(mass),
        mx: (fx(x) as i128) * (fx(mass) as i128),
        my: (fx(y) as i128) * (fx(mass) as i128),
    }
}

fn unit_root() -> Quad {
    Quad {
        pos: vec2(fx(-1.0), fx(-1.0)),
        size: fx(2.0),
    }
}

fn insert_body(t: &mut BHTree, x: f64, y: f64, mass: f64) {
    t.insert(Body {
        pos: vec2(fx(x), fx(y)),
        mass: fx(mass),
    });
}

#[test]
fn test_basic_quad() {
    // Four unit-mass bodies, one per quadrant, inserted into a root region
    // with origin (-1,-1) and size 2: the tree holds exactly one resident
    // leaf per quadrant and a root aggregate of mass 4 at position (0, 0).
    let mut bhtree = BHTree::new(unit_root());
    insert_body(&mut bhtree, 0.5, 0.5, 1.0);
    insert_body(&mut bhtree, -0.5, 0.5, 1.0);
    insert_body(&mut bhtree, -0.5, -0.5, 1.0);
    insert_body(&mut bhtree, 0.5, -0.5, 1.0);

    match &bhtree.node {
        Node::Internal { agg, nw, ne, sw, se } => {
            assert_eq!(agg.mass, fx(4.0));
            assert_eq!(agg.mx, 0);
            assert_eq!(agg.my, 0);
            match &ne.node {
                Node::Leaf(a) => assert_eq!(*a, leaf_agg(0.5, 0.5, 1.0)),
                _ => panic!("north-east child is not a leaf"),
            }
            match &nw.node {
                Node::Leaf(a) => assert_eq!(*a, leaf_agg(-0.5, 0.5, 1.0)),
                _ => panic!("north-west child is not a leaf"),
            }
            match &sw.node {
                Node::Leaf(a) => assert_eq!(*a, leaf_agg(-0.5, -0.5, 1.0)),
                _ => panic!("south-west child is not a leaf"),
            }
            match &se.node {
                Node::Leaf(a) => assert_eq!(*a, leaf_agg(0.5, -0.5, 1.0)),
                _ => panic!("south-east child is not a leaf"),
            }
        }
        _ => panic!("root is not internal"),
    }
}

#[test]
fn test_external_internal() {
    let mut t = BHTree::new(unit_root());
    assert!(t.is_external());
    assert!(!t.is_internal());
    insert_body(&mut t, 0.5, 0.5, 1.0);
    assert!(t.is_external()); // a single leaf has no children
    insert_body(&mut t, -0.5, -0.5, 1.0);
    assert!(t.is_internal());
}

#[test]
fn test_mass_conservation() {
    // The root aggregate mass is exactly the sum of the inserted masses,
    // and the first moments are exactly the sums of position * mass.
    let objects = vec![
        object_at(0.125, -0.25, 0.5),
        object_at(-0.75, 0.3125, 1.25),
        object_at(0.5, 0.5, 2.0),
        object_at(-0.0625, -0.875, 0.25),
        object_at(0.33, 0.77, 1.5),
    ];
    let t = build_tree(&objects, unit_root()).unwrap();
    let mut mass_sum: i64 = 0;
    let mut mx_sum: i128 = 0;
    let mut my_sum: i128 = 0;
    for o in &objects {
        mass_sum += o.mass;
        mx_sum += (o.pos.x as i128) * (o.mass as i128);
        my_sum += (o.pos.y as i128) * (o.mass as i128);
    }
    match &t.node {
        Node::Internal { agg, .. } => {
            assert_eq!(agg.mass, mass_sum);
            assert_eq!(agg.mx, mx_sum);
            assert_eq!(agg.my, my_sum);
            // Centroid correctness: moment / mass is the mass-weighted
            // average of the inserted positions.
            let cx = (agg.mx / (agg.mass as i128)) as f64 / (SCALE as f64);
            let cy = (agg.my / (agg.mass as i128)) as f64 / (SCALE as f64);
            let exp_x = (mx_sum as f64) / (mass_sum as f64) / (SCALE as f64);
            let exp_y = (my_sum as f64) / (mass_sum as f64) / (SCALE as f64);
            assert!((cx - exp_x).abs() < 1e-6);
            assert!((cy - exp_y).abs() < 1e-6);
        }
        _ => panic!("root is not internal"),
    }
}

#[test]
fn test_build_tree_rejects_nonpositive_mass() {
    let objects = vec![object_at(0.5, 0.5, 1.0), object_at(-0.5, 0.5, 0.0)];
    assert!(matches!(
        build_tree(&objects, unit_root()),
        Err(SimError::NonPositiveMass)
    ));
}

#[test]
fn test_build_tree_rejects_out_of_bounds() {
    let objects = vec![object_at(0.5, 0.5, 1.0), object_at(3.0, 0.5, 1.0)];
    assert!(matches!(
        build_tree(&objects, unit_root()),
        Err(SimError::OutOfBoundsBody)
    ));
}

#[test]
fn test_build_tree_reports_first_offender() {
    // The first offending body decides the error: index 1 has a bad mass,
    // index 2 is out of bounds.
    let objects = vec![
        object_at(0.5, 0.5, 1.0),
        object_at(-0.5, 0.5, -1.0),
        object_at(3.0, 0.5, 1.0),
    ];
    assert!(matches!(
        build_tree(&objects, unit_root()),
        Err(SimError::NonPositiveMass)
    ));
}

#[test]
fn test_coincident_bodies_merge() {
    // Two bodies at the identical position with distinct masses: insertion
    // terminates (the region stops subdividing at the minimum resolvable
    // size) and yields an aggregate of the combined mass at that position.
    let mut t = BHTree::new(unit_root());
    insert_body(&mut t, 0.25, 0.25, 1.0);
    insert_body(&mut t, 0.25, 0.25, 2.0);
    let (mass, mx, my) = match &t.node {
        Node::Internal { agg, .. } => (agg.mass, agg.mx, agg.my),
        Node::Leaf(a) => (a.mass, a.mx, a.my),
        Node::Empty => panic!("root is empty"),
    };
    assert_eq!(mass, fx(3.0));
    assert_eq!(mx, (fx(0.25) as i128) * (fx(3.0) as i128));
    assert_eq!(my, (fx(0.25) as i128) * (fx(3.0) as i128));
    // The centroid is exactly the shared position.
    assert_eq!(mx / (mass as i128), fx(0.25) as i128);
    assert_eq!(my / (mass as i128), fx(0.25) as i128);
}

fn brute_force_on(objects: &[Object], i: usize) -> (i64, i64) {
    let mut fx_sum: i64 = 0;
    let mut fy_sum: i64 = 0;
    for j in 0..objects.len() {
        if j != i {
            let f = force_between(&objects[i], &objects[j]);
            fx_sum += f.x;
            fy_sum += f.y;
        }
    }
    (fx_sum, fy_sum)
}

#[test]
fn test_theta_zero_matches_brute_force() {
    // With theta = 0 the traversal never approximates: the tree force on
    // every body equals the exact pairwise sum, to the last unit.
    let objects = vec![
        object_at(0.5, 0.5, 1.0),
        object_at(-0.5, 0.4375, 1.5),
        object_at(-0.25, -0.625, 0.75),
        object_at(0.375, -0.125, 2.0),
        object_at(0.8125, 0.0625, 0.5),
    ];
    let t = build_tree(&objects, unit_root()).unwrap();
    for i in 0..objects.len() {
        let f = t.net_force(&objects[i], 0);
        let (bx, by) = brute_force_on(&objects, i);
        assert_eq!(f.x, bx);
        assert_eq!(f.y, by);
        let d = net_force_direct(&objects, i);
        assert_eq!(f.x, d.x);
        assert_eq!(f.y, d.y);
    }
}

#[test]
fn test_approximation_close_to_brute_force() {
    // With a moderate theta the approximation stays close to the exact sum,
    // and shrinking theta can only keep or tighten the error.
    let objects = vec![
        object_at(0.51, 0.52, 1.0),
        object_at(0.53, 0.49, 1.25),
        object_at(-0.61, -0.58, 2.0),
        object_at(-0.55, -0.63, 0.75),
        object_at(0.1, -0.7, 1.0),
    ];
    let t = build_tree(&objects, unit_root()).unwrap();
    for i in 0..objects.len() {
        let (bx, by) = brute_force_on(&objects, i);
        let mut last_err = f64::INFINITY;
        for theta in [fx(1.0), fx(0.5), fx(0.0)] {
            let f = t.net_force(&objects[i], theta);
            let err = (((f.x - bx) as f64).powi(2) + ((f.y - by) as f64).powi(2)).sqrt()
                / (SCALE as f64);
            // Any approximation stays within a small absolute error of the
            // exact sum for this configuration.
            assert!(err < 1e-6);
            assert!(err <= last_err + 1e-9);
            last_err = err;
        }
        let exact = t.net_force(&objects[i], 0);
        assert_eq!(exact.x, bx);
        assert_eq!(exact.y, by);
    }
}

#[test]
fn test_bounding_quad_contains_all() {
    let objects = vec![
        object_at(0.5, 0.5, 1.0),
        object_at(-1.75, 0.4375, 1.5),
        object_at(-0.25, -2.625, 0.75),
        object_at(3.375, -0.125, 2.0),
    ];
    let q = bounding_quad(&objects);
    for o in &objects {
        assert!(q.contains(&o.pos));
    }
    // The side is a power of two, so the region subdivides exactly all the
    // way down.
    assert!(q.size > 0);
    assert_eq!(q.size & (q.size - 1), 0);
}

#[test]
fn test_step_single_body_drifts() {
    // A single body feels no force (a body exerts none on itself): its
    // velocity is unchanged and its position advances by velocity * dt.
    let dt = fx(0.001);
    let mut objects = vec![Object {
        pos: Vec2 { x: 0, y: 0 },
        vel: Vec2 { x: fx(1.0), y: fx(-0.5) },
        mass: fx(1.0),
    }];
    let r = step(&mut objects, fx(0.5), dt);
    assert_eq!(r, Ok(()));
    assert_eq!(objects.len(), 1);
    assert_eq!(objects[0].vel, Vec2 { x: fx(1.0), y: fx(-0.5) });
    let exp_x = ((fx(1.0) as i128) * (dt as i128) / (SCALE as i128)) as i64;
    let exp_y = ((fx(-0.5) as i128) * (dt as i128) / (SCALE as i128)) as i64;
    assert_eq!(objects[0].pos, Vec2 { x: exp_x, y: exp_y });
}

#[test]
fn test_step_rejects_nonpositive_mass() {
    let good = object_at(0.5, 0.5, 1.0);
    let bad = object_at(-0.5, 0.5, -1.0);
    let mut objects = vec![good, bad];
    let r = step(&mut objects, 0, fx(0.001));
    assert_eq!(r, Err(SimError::NonPositiveMass));
    assert_eq!(objects, vec![good, bad]); // untouched on failure
}

#[test]
fn test_circular_orbit_momentum() {
    // An isolated, symmetric two-body system on a circular orbit, integrated
    // exactly (theta = 0): the configuration stays exactly antisymmetric, so
    // the total momentum stays exactly zero — no drift at all. This checks
    // the velocity-then-position update order: both bodies always see the
    // current-step force of the other.
    let g = 6.6743e-6_f64;
    let r = 0.25_f64;
    let v = (g * 1.0 / (4.0 * r)).sqrt();
    let dt = fx(0.001);
    let mut objects = vec![
        Object {
            pos: Vec2 { x: fx(r), y: 0 },
            vel: Vec2 { x: 0, y: fx(v) },
            mass: fx(1.0),
        },
        Object {
            pos: Vec2 { x: fx(-r), y: 0 },
            vel: Vec2 { x: 0, y: fx(-v) },
            mass: fx(1.0),
        },
    ];
    for _ in 0..200 {
        let res = step(&mut objects, 0, dt);
        assert_eq!(res, Ok(()));
        // Exact mirror symmetry of the pair is preserved.
        assert_eq!(objects[0].pos.x, -objects[1].pos.x);
        assert_eq!(objects[0].pos.y, -objects[1].pos.y);
        assert_eq!(objects[0].vel.x, -objects[1].vel.x);
        assert_eq!(objects[0].vel.y, -objects[1].vel.y);
        // Total momentum (equal masses) is exactly zero.
        let px = (objects[0].mass as i128) * (objects[0].vel.x as i128)
            + (objects[1].mass as i128) * (objects[1].vel.x as i128);
        let py = (objects[0].mass as i128) * (objects[0].vel.y as i128)
            + (objects[1].mass as i128) * (objects[1].vel.y as i128);
        assert_eq!(px, 0);
        assert_eq!(py, 0);
    }
    // The orbit stays near the initial radius over these steps.
    let x = (objects[0].pos.x as f64) / (SCALE as f64);
    let y = (objects[0].pos.y as f64) / (SCALE as f64);
    let radius = (x * x + y * y).sqrt();
    assert!((radius - r).abs() < 0.05);
}
