use ecow::EcoVec;
use flow::geom::{Abs, FixedAlignment};
use flow::wrap::{
    band_is_exhausted, band_should_continue, line_measure, ExclusionBand, WidthProvider,
    WrapProfile,
};

fn band(y0: i64, y1: i64, inset: i64, side: FixedAlignment) -> ExclusionBand {
    ExclusionBand { y0: Abs::pt(y0), y1: Abs::pt(y1), inset: Abs::pt(inset), side }
}

#[test]
fn bands_on_both_sides_add_up() {
    let bands = [
        band(0, 20, 30, FixedAlignment::Start),
        band(0, 40, 50, FixedAlignment::End),
        band(10, 20, 5, FixedAlignment::Start),
    ];
    let at = |k| line_measure(&bands, Abs::pt(300), Abs::pt(10), Abs::pt(5), k);
    // Top 0, bottom 10: the third band starts right below.
    assert_eq!(at(0), (Abs::pt(30), Abs::pt(220)));
    // Top 15, bottom 25.
    assert_eq!(at(1), (Abs::pt(35), Abs::pt(215)));
    // Top 30, bottom 40.
    assert_eq!(at(2), (Abs::pt(0), Abs::pt(250)));
    // Top 45.
    assert_eq!(at(3), (Abs::pt(0), Abs::pt(300)));
}

#[test]
fn centered_band_reserves_from_the_start() {
    let bands = [band(0, 20, 30, FixedAlignment::Center)];
    let line = line_measure(&bands, Abs::pt(100), Abs::pt(10), Abs::pt(5), 0);
    assert_eq!(line, (Abs::pt(30), Abs::pt(70)));
}

#[test]
fn empty_profile_is_uniform() {
    let profile = WrapProfile::default();
    assert!(profile.is_empty());
    assert_eq!(profile.width(), Abs::zero());
    let profile = WrapProfile::new(EcoVec::new(), Abs::pt(80), Abs::pt(10), Abs::pt(2));
    let variable = WidthProvider::Variable(&profile);
    let uniform = WidthProvider::Uniform(Abs::pt(80));
    for k in 0..20 {
        assert_eq!(variable.at(k), uniform.at(k));
        assert_eq!(variable.width_at(k), uniform.width_at(k));
    }
    assert_eq!(variable.full_width(), uniform.full_width());
}

#[test]
fn profile_with_bands_is_not_empty() {
    let bands = EcoVec::from([band(0, 20, 30, FixedAlignment::Start)]);
    let profile = WrapProfile::new(bands, Abs::pt(80), Abs::pt(10), Abs::pt(2));
    assert!(!profile.is_empty());
    assert_eq!(profile.width(), Abs::pt(80));
}

#[test]
fn cloned_profile_says_the_same() {
    let bands = EcoVec::from([
        band(0, 20, 30, FixedAlignment::Start),
        band(30, 50, 10, FixedAlignment::End),
    ]);
    let profile = WrapProfile::new(bands, Abs::pt(80), Abs::pt(10), Abs::pt(2));
    let clone = profile.clone();
    assert_eq!(clone, profile);
    for k in 0..6 {
        assert_eq!(clone.at(k), profile.at(k));
    }
    assert_eq!(clone.at(3), (Abs::pt(0), Abs::pt(70)));
}

#[test]
fn measure_is_never_exhausted() {
    // The bands take exactly the width, then more than it.
    for inset in [40, 60] {
        let bands = [
            band(0, 20, inset, FixedAlignment::Start),
            band(0, 20, 40, FixedAlignment::End),
        ];
        let line = line_measure(&bands, Abs::pt(80), Abs::pt(10), Abs::pt(5), 0);
        assert_eq!(line, (Abs::pt(0), Abs::pt(80)));
    }
}

#[test]
fn opener_shorter_than_cap_lets_band_continue() {
    let (line_height, leading) = (10, 8);
    let pitch = Abs::pt(line_height + leading);
    for n in 1..6 {
        for m in 1..=n {
            let consumed = Abs::pt(m as i64 * line_height + (m as i64 - 1) * leading);
            assert_eq!(band_should_continue(n, pitch, consumed, true), m < n);
            assert!(!band_should_continue(n, pitch, consumed, false));
        }
    }
}

#[test]
fn exhausted_band_stays_exhausted() {
    assert!(band_is_exhausted(Abs(3), Abs(7)));
    assert!(band_is_exhausted(Abs(2), Abs(7)));
    assert!(band_is_exhausted(Abs(3), Abs(9)));
    assert!(!band_is_exhausted(Abs(4), Abs(7)));
}
