use flow::geom::{Abs, Axes, FixedAlignment, Fr, Ratio, Rel, Size};

#[test]
fn points_are_million_units() {
    assert_eq!(Abs::pt(3), Abs(3_000_000));
    assert_eq!(Abs::pt(i64::MAX), Abs::inf());
    assert_eq!(Abs::pt(i64::MIN), Abs(i64::MIN));
    assert_eq!(Abs::default(), Abs::zero());
}

#[test]
fn sums_saturate_to_infinity() {
    assert_eq!(Abs(5) + Abs(7), Abs(12));
    assert_eq!(Abs(i64::MAX - 1) + Abs(5), Abs::inf());
    assert_eq!(Abs::inf() + Abs(-5), Abs::inf());
    assert_eq!(Abs(-5) + Abs::inf(), Abs::inf());
    assert_eq!(Abs::inf() + Abs::inf(), Abs::inf());
}

#[test]
fn sums_without_value_are_zero() {
    assert_eq!(Abs::inf() + Abs(i64::MIN), Abs::zero());
    assert_eq!(Abs::inf() - Abs::inf(), Abs::zero());
    assert_eq!(Abs(i64::MIN) - Abs(i64::MIN), Abs::zero());
}

#[test]
fn differences_keep_the_sign_of_infinity() {
    assert_eq!(Abs(5) - Abs(7), Abs(-2));
    assert_eq!(Abs(5) - Abs::inf(), Abs(i64::MIN));
    assert_eq!(Abs(5) - Abs(i64::MIN), Abs::inf());
    assert_eq!(Abs::inf() - Abs(5), Abs::inf());
    assert_eq!(Abs::inf() - Abs(i64::MIN), Abs::inf());
    assert!(!Abs::inf().is_finite());
    assert!(Abs(0).is_finite());
}

#[test]
fn multiples_of_lengths() {
    assert_eq!(Abs::pt(16).times(3), Abs::pt(48));
    assert_eq!(Abs::inf().times(0), Abs::zero());
    assert_eq!(Abs::inf().times(2), Abs::inf());
    assert_eq!(Abs(-4).times(3), Abs(-12));
    assert_eq!(Abs(i64::MAX / 2).times(3), Abs::inf());
}

#[test]
fn halves_round_as_named() {
    assert_eq!(Abs(7).half(), Abs(3));
    assert_eq!(Abs(7).half_up(), Abs(4));
    assert_eq!(Abs(-7).half(), Abs(-4));
    assert_eq!(Abs(-7).half_up(), Abs(-3));
    assert_eq!(Abs(8).half(), Abs(4));
    assert_eq!(Abs(8).half_up(), Abs(4));
    assert_eq!(Abs::inf().half(), Abs::inf());
}

#[test]
fn scaling_is_exact_where_it_can_be() {
    assert_eq!(Abs(10).scaled(Abs(3), Abs(2)), Abs(15));
    assert_eq!(Abs(7).scaled(Abs(1), Abs(2)), Abs(3));
    assert_eq!(Abs(-7).scaled(Abs(1), Abs(2)), Abs(-3));
    assert_eq!(Abs(7).scaled(Abs(5), Abs::inf()), Abs(0));
    assert_eq!(Abs::inf().scaled(Abs(0), Abs(2)), Abs(0));
    assert_eq!(Abs::inf().scaled(Abs(-1), Abs(2)), Abs(i64::MIN));
    assert_eq!(Abs(1 << 40).scaled(Abs(1 << 40), Abs(1)), Abs::inf());
}

#[test]
fn fitting_has_one_unit_of_slack() {
    assert!(Abs(10).fits(Abs(10)));
    assert!(Abs(10).fits(Abs(11)));
    assert!(!Abs(10).fits(Abs(12)));
    assert!(Abs::inf().fits(Abs::inf()));
    assert!(!Abs(i64::MIN).fits(Abs(0)));
}

#[test]
fn larger_and_smaller_lengths() {
    assert_eq!(Abs(3).max(Abs(4)), Abs(4));
    assert_eq!(Abs(3).min(Abs(4)), Abs(3));
    assert_eq!(Abs(3).max(Abs::inf()), Abs::inf());
}

#[test]
fn shares_of_remaining_space() {
    assert_eq!(Fr(1_000_000).share(Fr(4_000_000), Abs(100)), Abs(25));
    assert_eq!(Fr(1).share(Fr(3), Abs(100)), Abs(33));
    assert_eq!(Fr(1).share(Fr(3), Abs(-100)), Abs(0));
    assert_eq!(Fr(1).share(Fr(0), Abs(100)), Abs(0));
    assert_eq!(Fr(1).share(Fr(3), Abs::inf()), Abs(0));
    assert_eq!(Fr(-1).share(Fr(-2), Abs(100)), Abs(50));
    assert_eq!(Fr(2) + Fr(3), Fr(5));
    assert_eq!(Fr(i64::MAX) + Fr(3), Fr(i64::MAX));
}

#[test]
fn ratios_of_lengths() {
    assert_eq!(Ratio(500_000).of(Abs(101)), Abs(50));
    assert_eq!(Ratio(-500_000).of(Abs(101)), Abs(-50));
    assert_eq!(Ratio(500_000).of(Abs::inf()), Abs(0));
    assert_eq!(Ratio(i64::MAX).of(Abs(i64::MAX - 1)), Abs(0));
}

#[test]
fn relative_lengths() {
    let half = Rel { rel: Ratio(500_000), abs: Abs(3) };
    assert_eq!(half.relative_to(Abs(100)), Abs(53));
    assert_eq!(half.relative_to(Abs::inf()), Abs(3));
    assert_eq!(Rel::absolute(Abs(7)).relative_to(Abs::inf()), Abs(7));
}

#[test]
fn sizes_axis_by_axis() {
    let a: Size = Axes { x: Abs(1), y: Abs(8) };
    let b: Size = Axes { x: Abs(4), y: Abs(2) };
    assert_eq!(a.min(b), Axes { x: Abs(1), y: Abs(2) });
    assert_eq!(Axes { x: true, y: false }.select(a, b), Axes { x: Abs(1), y: Abs(2) });
    assert_eq!(Axes { x: false, y: true }.select(a, b), Axes { x: Abs(4), y: Abs(8) });
    assert!(!a.is_zero());
    assert!(Axes { x: Abs(0), y: Abs(0) }.is_zero());
}

#[test]
fn alignment_positions() {
    assert_eq!(FixedAlignment::Start.position(Abs(9)), Abs(0));
    assert_eq!(FixedAlignment::Center.position(Abs(9)), Abs(4));
    assert_eq!(FixedAlignment::End.position(Abs(9)), Abs(9));
    assert_eq!(
        FixedAlignment::Start.latest(FixedAlignment::Center),
        FixedAlignment::Center
    );
    assert_eq!(FixedAlignment::End.latest(FixedAlignment::Center), FixedAlignment::End);
    assert_eq!(FixedAlignment::Start.latest(FixedAlignment::Start), FixedAlignment::Start);
}
