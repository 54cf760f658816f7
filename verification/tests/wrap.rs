use ecow::EcoVec;
use flow::geom::{Abs, FixedAlignment};
use flow::wrap::{
    band_is_exhausted, band_should_continue, ExclusionBand, WidthProvider, WrapProfile,
};

fn profile(side: FixedAlignment) -> WrapProfile {
    // A 120pt float, 90pt tall, in a 300pt measure; 12pt lines, 4pt leading
    // (16pt pitch). Lines with top < 90pt are level with the float.
    WrapProfile::new(
        EcoVec::from([ExclusionBand {
            y0: Abs::zero(),
            y1: Abs::pt(90),
            inset: Abs::pt(120),
            side,
        }]),
        Abs::pt(300),
        Abs::pt(12),
        Abs::pt(4),
    )
}

#[test]
fn no_bands_is_full_width() {
    let p = WrapProfile::new(EcoVec::new(), Abs::pt(300), Abs::pt(12), Abs::pt(4));
    assert!(p.is_empty());
    assert_eq!(p.at(0), (Abs::zero(), Abs::pt(300)));
    assert_eq!(p.at(99), (Abs::zero(), Abs::pt(300)));
}

#[test]
fn left_float_narrows_from_left() {
    let p = profile(FixedAlignment::Start);
    assert_eq!(p.at(0), (Abs::pt(120), Abs::pt(180))); // top 0: beside
    assert_eq!(p.at(5), (Abs::pt(120), Abs::pt(180))); // top 80: beside
    assert_eq!(p.at(6), (Abs::zero(), Abs::pt(300))); // top 96: below
}

#[test]
fn right_float_narrows_from_right() {
    let p = profile(FixedAlignment::End);
    assert_eq!(p.at(0), (Abs::zero(), Abs::pt(180))); // beside, no offset
    assert_eq!(p.at(6), (Abs::zero(), Abs::pt(300))); // below
}

#[test]
fn straddling_line_counts_as_beside() {
    // Line 5: top 80, bottom 92 straddles y1 = 90: still narrowed.
    let p = profile(FixedAlignment::Start);
    assert_eq!(p.at(5).1, Abs::pt(180));
}

#[test]
fn provider_narrowing_is_reserved_width() {
    // The narrowing of a line is `full_width - width_at(k)`.
    let p = profile(FixedAlignment::Start);
    let provider = WidthProvider::Variable(&p);
    assert_eq!(provider.full_width(), Abs::pt(300));
    // Beside the float: narrowed by the 120pt inset.
    assert_eq!(provider.full_width() - provider.width_at(0), Abs::pt(120));
    // Below the float: no narrowing.
    assert_eq!(provider.full_width() - provider.width_at(6), Abs::zero());
    // Uniform never narrows.
    let uniform = WidthProvider::Uniform(Abs::pt(300));
    assert_eq!(uniform.full_width() - uniform.width_at(0), Abs::zero());
}

#[test]
fn float_wider_than_measure_falls_back_to_full_width() {
    let p = WrapProfile::new(
        EcoVec::from([ExclusionBand {
            y0: Abs::zero(),
            y1: Abs::pt(50),
            inset: Abs::pt(400),
            side: FixedAlignment::Start,
        }]),
        Abs::pt(300),
        Abs::pt(12),
        Abs::pt(4),
    );
    assert_eq!(p.at(0), (Abs::zero(), Abs::pt(300)));
}

#[test]
fn gate_off_when_no_continuation_follows() {
    // A short opener (1 line) leaves a tall residual, but no continuation
    // paragraph follows.
    let pitch = Abs::pt(16);
    let consumed = Abs::pt(12);
    assert!(!band_should_continue(3, pitch, consumed, false));
}

#[test]
fn gate_on_for_short_opener_with_continuation() {
    // 48 - 12 = 36 is at least the pitch.
    let pitch = Abs::pt(16);
    let consumed = Abs::pt(12);
    assert!(band_should_continue(3, pitch, consumed, true));
}

#[test]
fn gate_off_when_opener_fills_the_cap() {
    // 3 lines + 2 leadings = 36 + 8 = 44pt consumed of 48pt: one leading left.
    let pitch = Abs::pt(16);
    let consumed = Abs::pt(44);
    assert!(!band_should_continue(3, pitch, consumed, true));
}

#[test]
fn gate_off_for_full_opener_in_loose_leading_mode() {
    // Line height 10, leading 8: the leading that is left exceeds half a line,
    // but not a full pitch.
    let pitch = Abs::pt(18);
    let consumed = Abs::pt(46); // 3 * 10 + 2 * 8
    assert!(!band_should_continue(3, pitch, consumed, true));
}

#[test]
fn band_exhaustion_threshold_is_half_a_line() {
    let line_height = Abs::pt(12);
    assert!(band_is_exhausted(Abs::pt(5), line_height)); // < 6pt: done
    assert!(band_is_exhausted(Abs::pt(6), line_height)); // == 6pt: done
    assert!(!band_is_exhausted(Abs::pt(7), line_height)); // > 6pt: continue
}

#[test]
fn continuation_band_narrows_exactly_the_level_lines() {
    // With a 16pt pitch and the residual band ending at 32pt, lines 0 and 1 are
    // level with the cap and line 2 (top 32) clears it.
    let residual_y1 = Abs::pt(32);
    let p = WrapProfile::new(
        EcoVec::from([ExclusionBand {
            y0: Abs::zero(),
            y1: residual_y1,
            inset: Abs::pt(60),
            side: FixedAlignment::Start,
        }]),
        Abs::pt(300),
        Abs::pt(12),
        Abs::pt(4),
    );
    assert_eq!(p.at(0), (Abs::pt(60), Abs::pt(240))); // top 0: beside
    assert_eq!(p.at(1), (Abs::pt(60), Abs::pt(240))); // top 16: beside
    assert_eq!(p.at(2), (Abs::zero(), Abs::pt(300))); // top 32: below
}
