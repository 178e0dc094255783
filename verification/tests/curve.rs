use assay::curve::{Curve, CurveError};
use assay::Fixed;

fn f(units: i64) -> Fixed {
    Fixed::from_int(units)
}

#[test]
fn rejects_empty_and_unsorted() {
    assert!(matches!(Curve::linear(vec![]), Err(CurveError::Empty)));
    assert!(matches!(Curve::linear(vec![(f(0), f(0)), (f(0), f(1))]), Err(CurveError::NotStrictlyAscending)));
    assert!(matches!(Curve::linear(vec![(f(5), f(0)), (f(1), f(1))]), Err(CurveError::NotStrictlyAscending)));
}

#[test]
fn exact_at_points_clamped_outside() {
    let curve = Curve::linear(vec![(f(0), f(-22)), (f(100), f(40))]).unwrap();
    assert_eq!(curve.sample(f(0)), f(-22));
    assert_eq!(curve.sample(f(100)), f(40));
    assert_eq!(curve.sample(f(-50)), f(-22), "clamp below");
    assert_eq!(curve.sample(f(500)), f(40), "clamp above");
}

#[test]
fn linear_interpolation_with_one_rounding() {
    // Between (0, 0) and (3, 1): at x = 1, y = 1/3, which is 0.333333.
    let curve = Curve::linear(vec![(f(0), f(0)), (f(3), f(1))]).unwrap();
    assert_eq!(curve.sample(f(1)).micro(), 333_333);
    assert_eq!(curve.sample(f(2)).micro(), 666_667);
}

#[test]
fn segment_lookup_picks_the_right_neighbours() {
    let curve = Curve::linear(vec![(f(0), f(0)), (f(10), f(100)), (f(20), f(0))]).unwrap();
    assert_eq!(curve.sample(f(5)), f(50));
    assert_eq!(curve.sample(f(10)), f(100));
    assert_eq!(curve.sample(f(15)), f(50));
}

#[test]
fn monotonic_points_give_monotonic_samples() {
    let curve = Curve::linear(vec![(f(-100), f(-5)), (f(0), f(0)), (f(7), f(3)), (f(400), f(90))]).unwrap();
    let mut x: i64 = -150;
    while x < 450 {
        assert!(curve.sample(f(x)) <= curve.sample(f(x + 1)));
        x += 1;
    }
}

#[test]
fn a_curve_spanning_the_whole_range_builds_and_samples_inside() {
    let lo = Fixed::from_micro(i64::MIN);
    let hi = Fixed::from_micro(i64::MAX);
    let curve = Curve::linear(vec![(lo, Fixed::from_micro(0)), (hi, Fixed::from_micro(1000))]).unwrap();
    // 1000 × 2^63 / (2^64 − 1) is a hair above 500.
    assert_eq!(curve.sample(Fixed::from_micro(0)), Fixed::from_micro(500));
    assert_eq!(curve.sample(hi), Fixed::from_micro(1000));
    let falling = Curve::linear(vec![(lo, Fixed::from_micro(i64::MAX)), (hi, Fixed::from_micro(i64::MIN))]).unwrap();
    // (2^63 − 1) − 2^63 exactly.
    assert_eq!(falling.sample(Fixed::from_micro(0)), Fixed::from_micro(-1));
}
