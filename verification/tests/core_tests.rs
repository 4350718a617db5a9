// Tests of the regions, the mass-point combination and the force kernel.

use barnes_hut::body::{sum_bodies, vec2, Body, Object, Vec2};
use barnes_hut::kernel::{distance_sq, force_between, G_FIXED};
use barnes_hut::num::SCALE;
use barnes_hut::quad::Quad;
use barnes_hut::sim::{combine_checked, SimError};
use barnes_hut::tree::BHTree;

fn fx(v: f64) -> i64 {
    (v * (SCALE as f64)).round() as i64
}

fn to_f64(v: i64) -> f64 {
    (v as f64) / (SCALE as f64)
}

fn object_at(x: f64, y: f64, mass: f64) -> Object {
    Object {
        pos: Vec2 { x: fx(x), y: fx(y) },
        vel: Vec2 { x: 0, y: 0 },
        mass: fx(mass),
    }
}

#[test]
fn test_bhtree() {
    let quad = Quad {
        pos: vec2(fx(0.0), fx(0.0)),
        size: fx(10.0),
    };
    let _bhtree = BHTree::new(quad);
}

#[test]
fn test_sum_bodies() {
    let a = Body {
        pos: vec2(fx(0.5), fx(0.5)),
        mass: fx(1.0),
    };
    let b = Body {
        pos: vec2(fx(-0.5), fx(-0.5)),
        mass: fx(1.0),
    };

    let summed_body = sum_bodies(&a, &b);
    assert_eq!(
        summed_body,
        Body {
            pos: vec2(fx(0.0), fx(0.0)),
            mass: fx(2.0),
        }
    );
}

#[test]
fn test_sum_bodies_2() {
    let a = Body {
        pos: vec2(fx(0.5), fx(0.5)),
        mass: fx(1.0),
    };
    let b = Body {
        pos: vec2(fx(-0.5), fx(0.5)),
        mass: fx(1.0),
    };
    let c = Body {
        pos: vec2(fx(-0.5), fx(-0.5)),
        mass: fx(1.0),
    };
    let d = Body {
        pos: vec2(fx(0.5), fx(-0.5)),
        mass: fx(1.0),
    };

    let mut summed_body = sum_bodies(&a, &b);
    summed_body = sum_bodies(&summed_body, &c);
    summed_body = sum_bodies(&summed_body, &d);

    assert_eq!(
        summed_body,
        Body {
            pos: vec2(fx(0.0), fx(0.0)),
            mass: fx(4.0),
        }
    );
}

#[test]
fn test_distance_sq() {
    // Distance squared between two objects: (3^2 + 4^2) = 25.
    let obj1 = object_at(0.0, 0.0, 1.0);
    let obj2 = object_at(3.0, 4.0, 1.0);
    let result = distance_sq(&obj1, &obj2);
    assert_eq!(result, fx(25.0));
}

#[test]
fn test_force_between() {
    // Force between two objects, compared against the continuous formula.
    let obj1 = object_at(0.0, 0.0, 5.0);
    let obj2 = object_at(3.0, 4.0, 10.0);
    let g = 6.6743e-6_f64;
    let dist_sq = 25.0_f64;
    let expected_force_mag = g * 5.0 * 10.0 / dist_sq;
    let expected = (expected_force_mag * 3.0 / 5.0, expected_force_mag * 4.0 / 5.0);

    let result = force_between(&obj1, &obj2);

    assert!((to_f64(result.x) - expected.0).abs() < 1e-5);
    assert!((to_f64(result.y) - expected.1).abs() < 1e-5);
}

#[test]
fn test_force_between_exact() {
    // Exact fixed-point value: masses 5 and 10 at distance 5, so the raw
    // magnitude is G_FIXED * 50 / 25 = 2 * G_FIXED, split 3:4:5 over the
    // two components with floor rounding.
    let obj1 = object_at(0.0, 0.0, 5.0);
    let obj2 = object_at(3.0, 4.0, 10.0);
    let mag = 2 * G_FIXED;
    let result = force_between(&obj1, &obj2);
    assert_eq!(result.x, mag * 3 / 5);
    assert_eq!(result.y, mag * 4 / 5);
}

#[test]
fn test_force_antisymmetry() {
    // force(a, b) == -force(b, a), exactly, for a spread of pairs.
    let cases = [
        (0.0, 0.0, 5.0, 3.0, 4.0, 10.0),
        (-1.0, 2.0, 0.25, 1.5, -0.5, 7.0),
        (0.1, 0.1, 1.0, 0.1, 0.1, 2.0), // coincident positions: zero force
        (2.0, -3.0, 0.5, -2.0, 3.0, 0.5),
    ];
    for &(ax, ay, am, bx, by, bm) in cases.iter() {
        let a = object_at(ax, ay, am);
        let b = object_at(bx, by, bm);
        let fab = force_between(&a, &b);
        let fba = force_between(&b, &a);
        assert_eq!(fab.x, -fba.x);
        assert_eq!(fab.y, -fba.y);
    }
}

#[test]
fn test_force_clamped_near_zero_distance() {
    // Very close bodies: the magnitude is clamped to 0.01 units, not
    // unbounded.
    let a = object_at(0.0, 0.0, 100.0);
    let b = object_at(0.000001, 0.0, 100.0);
    let f = force_between(&a, &b);
    let clamp = 0.01_f64;
    assert!(to_f64(f.x).abs() <= clamp + 1e-9);
    assert!(to_f64(f.y).abs() <= clamp + 1e-9);
    assert!(to_f64(f.x) > 0.009); // actually at the clamp here
}

#[test]
fn test_quadrant_partition() {
    // A point inside a region is contained by exactly one quadrant child.
    let q = Quad {
        pos: vec2(fx(-1.0), fx(-1.0)),
        size: fx(2.0),
    };
    let points = [
        (0.5, 0.5),
        (-0.5, 0.5),
        (-0.5, -0.5),
        (0.5, -0.5),
        (0.0, 0.0),   // the exact midpoint belongs to the north-east child
        (-1.0, -1.0), // the lower-left corner
        (0.0, -0.25),
        (-0.25, 0.0),
    ];
    for &(x, y) in points.iter() {
        let p = vec2(fx(x), fx(y));
        assert!(q.contains(&p));
        let hits = [
            q.nw().contains(&p),
            q.ne().contains(&p),
            q.sw().contains(&p),
            q.se().contains(&p),
        ];
        let count = hits.iter().filter(|&&h| h).count();
        assert_eq!(count, 1);
        // dispatch_into returns that one containing child.
        let chosen = q.dispatch_into(&p);
        assert!(chosen.contains(&p));
    }
}

#[test]
fn test_contains_half_open() {
    let q = Quad {
        pos: vec2(fx(0.0), fx(0.0)),
        size: fx(1.0),
    };
    assert!(q.contains(&vec2(0, 0)));
    assert!(q.contains(&vec2(fx(1.0) - 1, fx(1.0) - 1)));
    assert!(!q.contains(&vec2(fx(1.0), 0)));
    assert!(!q.contains(&vec2(0, fx(1.0))));
    assert!(!q.contains(&vec2(-1, 0)));
    assert_eq!(q.length(), fx(1.0));

    let b = Body {
        pos: vec2(fx(0.25), fx(0.75)),
        mass: fx(1.0),
    };
    assert!(b.inside(&q));
}

#[test]
fn test_combine_scenario() {
    // Masses 3 and 1 at (0,0) and (4,0) combine to mass 4 at (1,0).
    let a = Body {
        pos: vec2(fx(0.0), fx(0.0)),
        mass: fx(3.0),
    };
    let b = Body {
        pos: vec2(fx(4.0), fx(0.0)),
        mass: fx(1.0),
    };
    let c = sum_bodies(&a, &b);
    assert_eq!(c.mass, fx(4.0));
    assert_eq!(c.pos, vec2(fx(1.0), fx(0.0)));

    let checked = combine_checked(&a, &b);
    assert_eq!(checked, Ok(c));
}

#[test]
fn test_combine_checked_rejects_zero_mass() {
    let a = Body {
        pos: vec2(fx(0.0), fx(0.0)),
        mass: 0,
    };
    let b = Body {
        pos: vec2(fx(4.0), fx(0.0)),
        mass: 0,
    };
    assert_eq!(combine_checked(&a, &b), Err(SimError::UndefinedCombination));
    let c = Body {
        pos: vec2(fx(1.0), fx(0.0)),
        mass: fx(1.0),
    };
    assert_eq!(combine_checked(&a, &c), Err(SimError::UndefinedCombination));
}
