use mass_raytrace::geom::{BoundingBox, V3};
use mass_raytrace::scalar::Scalar;
use mass_raytrace::shape::{cube_face, limit_fuzz, medium_span, pick_root};

fn s(v: f32) -> Scalar {
    Scalar::from_bits(v.to_bits())
}

fn f(v: Scalar) -> f32 {
    f32::from_bits(v.to_bits())
}

fn v3(x: f32, y: f32, z: f32) -> V3 {
    V3::new(s(x), s(y), s(z))
}

fn floats(v: V3) -> [f32; 3] {
    [f(v.x()), f(v.y()), f(v.z())]
}

fn samples() -> Vec<f32> {
    let mut out = vec![
        0.0,
        -0.0,
        1.0,
        -1.0,
        0.5,
        -0.5,
        0.00001,
        0.000011,
        0.0000099,
        2.0,
        1.0e-40,
        -1.0e-40,
        f32::MIN_POSITIVE,
        f32::MAX,
        f32::MIN,
        f32::INFINITY,
        f32::NEG_INFINITY,
        f32::NAN,
        -f32::NAN,
        f32::EPSILON,
        3.1415927,
        -1234.5678,
        1.0e20,
        -1.0e20,
        0.99999994,
        1.0000001,
    ];
    let mut state: u32 = 12345;
    for _ in 0..200 {
        state = state.wrapping_mul(1664525).wrapping_add(1013904223);
        out.push(f32::from_bits(state));
    }
    out
}

#[test]
fn scalar_order_is_the_order_of_the_numbers() {
    for a in samples() {
        for b in samples() {
            assert_eq!(s(a).less_than(s(b)), a < b, "{} < {}", a, b);
            assert_eq!(s(a).at_most(s(b)), a <= b, "{} <= {}", a, b);
        }
        assert_eq!(s(a).nan(), a.is_nan());
    }
}

#[test]
fn scalar_min_and_max_are_those_of_the_numbers() {
    for a in samples() {
        for b in samples() {
            let (lo, hi) = (f(s(a).min(s(b))), f(s(a).max(s(b))));
            if a.is_nan() && b.is_nan() {
                assert!(lo.is_nan() && hi.is_nan());
            } else {
                // equal as numbers; of two zeros either may be given
                assert_eq!(lo, a.min(b), "min({}, {})", a, b);
                assert_eq!(hi, a.max(b), "max({}, {})", a, b);
            }
        }
    }
    assert_eq!(s(0.0).min(s(-0.0)).to_bits(), (-0.0f32).to_bits());
    assert_eq!(s(-0.0).min(s(0.0)).to_bits(), (-0.0f32).to_bits());
    assert_eq!(s(0.0).max(s(-0.0)).to_bits(), 0.0f32.to_bits());
    assert_eq!(s(-0.0).max(s(0.0)).to_bits(), 0.0f32.to_bits());
}

#[test]
fn scalar_sort_key_orders_all_bit_patterns() {
    let mut values: Vec<f32> = samples().into_iter().filter(|v| !v.is_nan()).collect();
    values.sort_by(|a, b| s(*a).sort_key().cmp(&s(*b).sort_key()));
    for pair in values.windows(2) {
        assert!(pair[0] <= pair[1], "{} before {}", pair[0], pair[1]);
    }
    assert!(s(-0.0).sort_key() < s(0.0).sort_key());
    assert!(s(f32::INFINITY).sort_key() < s(f32::NAN).sort_key());
    assert_eq!(s(0.0).sort_key(), 0);
    assert_eq!(s(1.0).sort_key(), 0x3f80_0000);
    assert_eq!(s(-1.0).sort_key(), -0x3f80_0000 - 1);
}

#[test]
fn scalar_sign_changes_are_exact() {
    for a in samples() {
        assert_eq!(s(a).neg().to_bits(), (-a).to_bits());
        assert_eq!(s(a).abs().to_bits(), a.abs().to_bits());
        assert_eq!(s(a).neg().neg(), s(a));
    }
}

#[test]
fn scalar_saturate_keeps_to_the_unit_range() {
    for a in samples() {
        let expected = a.min(1.0).max(0.0);
        assert_eq!(f(s(a).saturate()), expected, "{}", a);
    }
    assert_eq!(f(s(0.25).saturate()), 0.25);
    assert_eq!(f(s(7.0).saturate()), 1.0);
    assert_eq!(f(s(-7.0).saturate()), 0.0);
    assert_eq!(f(s(f32::NAN).saturate()), 1.0);
}

#[test]
fn scalar_constants_have_their_values() {
    assert_eq!(f(Scalar::zero()), 0.0);
    assert_eq!(f(Scalar::one()), 1.0);
    assert_eq!(f(Scalar::infinity()), f32::INFINITY);
    assert_eq!(f(Scalar::neg_infinity()), f32::NEG_INFINITY);
    assert_eq!(Scalar::from_bits(0x4049_0fdb).to_bits(), 0x4049_0fdb);
}

#[test]
fn near_zero_tests_each_coordinate() {
    for a in samples() {
        let expected = a.abs() <= 0.00001;
        assert_eq!(v3(a, 0.0, 0.0).near_zero(), expected, "{}", a);
        assert_eq!(v3(0.0, a, 0.0).near_zero(), expected, "{}", a);
        assert_eq!(v3(0.0, 0.0, a).near_zero(), expected, "{}", a);
    }
    assert!(v3(0.00001, -0.00001, 0.0).near_zero());
    assert!(!v3(0.0, 0.0, 0.000011).near_zero());
}

#[test]
fn points_hold_their_coordinates() {
    let p = v3(1.0, -2.0, 3.5);
    assert_eq!(floats(p), [1.0, -2.0, 3.5]);
    assert_eq!(floats(V3::fill(s(4.0))), [4.0, 4.0, 4.0]);
    assert_eq!([f(p.axis(0)), f(p.axis(1)), f(p.axis(2))], [1.0, -2.0, 3.5]);
    let q = v3(0.0, 5.0, 3.0);
    assert_eq!(floats(p.min(q)), [0.0, -2.0, 3.0]);
    assert_eq!(floats(p.max(q)), [1.0, 5.0, 3.5]);
    assert_eq!(floats(p.abs()), [1.0, 2.0, 3.5]);
}

fn bbox(lo: [f32; 3], hi: [f32; 3]) -> BoundingBox {
    BoundingBox::new(v3(lo[0], lo[1], lo[2]), v3(hi[0], hi[1], hi[2]))
}

#[test]
fn box_join_is_idempotent_and_commutative() {
    let a = bbox([-1.0, 0.0, 2.0], [1.0, 5.0, 3.0]);
    let b = bbox([0.0, -4.0, 2.5], [0.5, 9.0, 7.0]);
    let c = bbox([-0.0, 0.0, -0.0], [0.0, 0.0, 0.0]);
    for x in [a, b, c] {
        assert_eq!(x.join(x), x);
        for y in [a, b, c] {
            assert_eq!(x.join(y), y.join(x));
            assert!(x.join(y).is_well_formed());
        }
    }
    let j = a.join(b);
    assert_eq!(floats(j.minimum), [-1.0, -4.0, 2.0]);
    assert_eq!(floats(j.maximum), [1.0, 9.0, 7.0]);
}

#[test]
fn box_is_well_formed_when_minimum_is_below_maximum() {
    assert!(bbox([0.0; 3], [0.0; 3]).is_well_formed());
    assert!(bbox([-1.0; 3], [1.0; 3]).is_well_formed());
    assert!(!bbox([0.0, 0.0, 2.0], [1.0, 1.0, 1.0]).is_well_formed());
    assert!(!bbox([0.0, 0.0, f32::NAN], [1.0, 1.0, 1.0]).is_well_formed());
}

#[test]
fn box_corners_come_in_the_order_of_their_index() {
    let b = bbox([-1.0, -2.0, -3.0], [1.0, 2.0, 3.0]);
    let corners: Vec<[f32; 3]> = b.corners().into_iter().map(floats).collect();
    assert_eq!(
        corners,
        [
            [1.0, 2.0, 3.0],
            [-1.0, 2.0, 3.0],
            [1.0, -2.0, 3.0],
            [-1.0, -2.0, 3.0],
            [1.0, 2.0, -3.0],
            [-1.0, 2.0, -3.0],
            [1.0, -2.0, -3.0],
            [-1.0, -2.0, -3.0],
        ]
    );
    assert_eq!(floats(b.corner(5)), [-1.0, 2.0, -3.0]);
}

#[test]
fn enclosing_box_holds_all_points() {
    let points = [v3(1.0, 5.0, -2.0), v3(-3.0, 0.0, 4.0), v3(0.5, 7.0, 0.0)];
    let b = BoundingBox::enclosing(&points);
    assert_eq!(floats(b.minimum), [-3.0, 0.0, -2.0]);
    assert_eq!(floats(b.maximum), [1.0, 7.0, 4.0]);
    let nothing = BoundingBox::enclosing(&[]);
    assert_eq!(floats(nothing.minimum), [f32::INFINITY; 3]);
    assert_eq!(floats(nothing.maximum), [f32::NEG_INFINITY; 3]);
    // the box of the corners of a box is the box
    let corners = b.corners();
    assert_eq!(BoundingBox::enclosing(&corners), b);
}

#[test]
fn sphere_root_is_the_nearer_one_in_range() {
    let pick = |near: f32, far: f32, lo: f32, hi: f32| {
        pick_root(s(near), s(far), s(lo), s(hi)).map(f)
    };
    assert_eq!(pick(3.0, 7.0, 0.001, f32::INFINITY), Some(3.0));
    assert_eq!(pick(-3.0, 7.0, 0.001, f32::INFINITY), Some(7.0));
    assert_eq!(pick(-7.0, -3.0, 0.001, f32::INFINITY), None);
    assert_eq!(pick(3.0, 7.0, 0.001, 2.0), None);
    assert_eq!(pick(3.0, 7.0, 4.0, 10.0), Some(7.0));
    assert_eq!(pick(3.0, 7.0, 3.0, 3.0), Some(3.0));
    assert_eq!(pick(f32::NAN, 7.0, 0.001, f32::INFINITY), Some(7.0));
    assert_eq!(pick(f32::NAN, f32::NAN, 0.001, f32::INFINITY), None);
    assert_eq!(pick(3.0, f32::NAN, 4.0, f32::INFINITY), None);
}

#[test]
fn medium_span_is_cut_to_the_range() {
    let span = |enter: f32, exit: f32, lo: f32, hi: f32| {
        medium_span(s(enter), s(exit), s(lo), s(hi)).map(|(a, b)| (f(a), f(b)))
    };
    assert_eq!(span(1.0, 5.0, 0.001, f32::INFINITY), Some((1.0, 5.0)));
    assert_eq!(span(-2.0, 5.0, 0.001, f32::INFINITY), Some((0.001, 5.0)));
    assert_eq!(span(-2.0, 5.0, -1.0, 3.0), Some((0.0, 3.0)));
    assert_eq!(span(1.0, 5.0, 0.001, 0.5), None);
    assert_eq!(span(1.0, 5.0, 5.0, 9.0), None);
    assert_eq!(span(-5.0, -1.0, 0.001, f32::INFINITY), None);
}

#[test]
fn fuzz_is_kept_between_zero_and_one() {
    assert_eq!(f(limit_fuzz(s(0.3))), 0.3);
    assert_eq!(f(limit_fuzz(s(0.0))), 0.0);
    assert_eq!(f(limit_fuzz(s(1.0))), 1.0);
    assert_eq!(f(limit_fuzz(s(3.0))), 1.0);
    assert_eq!(f(limit_fuzz(s(f32::NAN))), 1.0);
    assert_eq!(f(limit_fuzz(s(-2.0))), 0.0);
    assert_eq!(f(limit_fuzz(s(f32::NEG_INFINITY))), 0.0);
}

#[test]
fn cube_face_is_that_of_the_largest_coordinate() {
    let face = |x: f32, y: f32, z: f32| {
        let r = cube_face(v3(x, y, z));
        (r.index, f(r.u), f(r.v), f(r.max_axis))
    };
    assert_eq!(face(2.0, 0.5, -1.0), (0, 1.0, 0.5, 2.0));
    assert_eq!(face(-2.0, 0.5, -1.0), (1, -1.0, 0.5, 2.0));
    assert_eq!(face(0.5, 3.0, 1.0), (3, 0.5, -1.0, 3.0));
    assert_eq!(face(0.5, -3.0, 1.0), (2, 0.5, 1.0, 3.0));
    assert_eq!(face(0.5, 1.0, 4.0), (4, 0.5, 1.0, 4.0));
    assert_eq!(face(0.5, 1.0, -4.0), (5, -0.5, 1.0, 4.0));
    // ties go to x before y before z
    assert_eq!(face(1.0, 1.0, 1.0).0, 0);
    assert_eq!(face(0.0, 1.0, 1.0).0, 3);
    assert_eq!(face(0.0, 0.0, 0.0), (1, 0.0, 0.0, 0.0));
    assert_eq!(face(f32::NAN, 1.0, 1.0), (0, 0.0, 0.0, 0.0));
}

#[test]
fn cube_face_place_lies_on_the_face() {
    for x in samples() {
        for y in [0.25f32, -3.0, 1.0e10] {
            for z in [-0.75f32, 2.0] {
                if x.is_nan() {
                    continue;
                }
                let r = cube_face(v3(x, y, z));
                assert!(r.index < 6);
                assert!(f(r.u).abs() <= f(r.max_axis));
                assert!(f(r.v).abs() <= f(r.max_axis));
                assert_eq!(f(r.max_axis), x.abs().max(y.abs()).max(z.abs()));
            }
        }
    }
}
