//! Laws of the widths of lines beside floats.
use vstd::prelude::*;

use crate::geom::Abs;
use crate::wrap::{
    band_is_exhausted, band_should_continue, reserved, ExclusionBand, ProfileModel,
    WidthProvider, WrapProfile,
};

verus! {

/// A profile without bands is equivalent to uniform breaking at its full width.
pub proof fn law_empty_profile_is_uniform(profile: ProfileModel, k: usize)
    requires
        profile.bands.len() == 0,
    ensures
        profile.at(k) == WidthProvider::Uniform(profile.width).line(k),
{
}

/// Uniform breaking never narrows a line.
pub proof fn law_uniform_never_narrows(width: Abs, k: usize)
    ensures
        WidthProvider::Uniform(width).line(k) == (Abs(0), WidthProvider::Uniform(width).full()),
{
}

/// Bands that are not level with a line take nothing from it.
proof fn lemma_nothing_reserved(bands: Seq<ExclusionBand>, top: Abs, bottom: Abs, at_end: bool)
    requires
        forall|i: int| 0 <= i < bands.len() ==> !(#[trigger] bands[i]).level_with(top, bottom),
    ensures
        reserved(bands, top, bottom, at_end) == Abs(0),
    decreases bands.len(),
{
    if bands.len() > 0 {
        assert(!bands[bands.len() - 1].level_with(top, bottom));
        assert forall|i: int| 0 <= i < bands.drop_last().len() implies !(
        #[trigger] bands.drop_last()[i]).level_with(top, bottom) by {
            assert(bands[i] == bands.drop_last()[i]);
        }
        lemma_nothing_reserved(bands.drop_last(), top, bottom, at_end);
    }
}

/// A line that clears all bands gets the full width at offset zero.
pub proof fn law_clear_lines_are_full_width(profile: ProfileModel, k: usize)
    requires
        forall|i: int|
            0 <= i < profile.bands.len() ==> !(#[trigger] profile.bands[i]).level_with(
                profile.top(k),
                profile.bottom(k),
            ),
    ensures
        profile.at(k) == (Abs(0), profile.width),
{
    lemma_nothing_reserved(profile.bands, profile.top(k), profile.bottom(k), false);
    lemma_nothing_reserved(profile.bands, profile.top(k), profile.bottom(k), true);
}

/// The breaker never gets a measure that is not positive, whatever the bands, unless the full
/// width is not positive.
pub proof fn law_measure_is_positive(profile: ProfileModel, k: usize)
    requires
        profile.width.0 > 0,
    ensures
        profile.at(k).1.0 > 0,
{
}

/// No reserved space is negative where no inset is.
proof fn lemma_reserved_not_negative(
    bands: Seq<ExclusionBand>,
    top: Abs,
    bottom: Abs,
    at_end: bool,
)
    requires
        forall|i: int| 0 <= i < bands.len() ==> (#[trigger] bands[i]).inset.0 >= 0,
    ensures
        reserved(bands, top, bottom, at_end).0 >= 0,
    decreases bands.len(),
{
    if bands.len() > 0 {
        assert(bands[bands.len() - 1].inset.0 >= 0);
        assert forall|i: int| 0 <= i < bands.drop_last().len() implies (
        #[trigger] bands.drop_last()[i]).inset.0 >= 0 by {
            assert(bands[i] == bands.drop_last()[i]);
        }
        lemma_reserved_not_negative(bands.drop_last(), top, bottom, at_end);
    }
}

/// A line stays within the column: it does not start before the column and does not end after
/// it.
pub proof fn law_line_stays_in_column(profile: ProfileModel, k: usize)
    requires
        profile.width.0 > 0,
        profile.width.is_finite(),
        forall|i: int| 0 <= i < profile.bands.len() ==> (#[trigger] profile.bands[i]).inset.0 >= 0,
    ensures
        profile.at(k).0.0 >= 0,
        profile.at(k).0.0 + profile.at(k).1.0 <= profile.width.0,
{
    lemma_reserved_not_negative(profile.bands, profile.top(k), profile.bottom(k), false);
    lemma_reserved_not_negative(profile.bands, profile.top(k), profile.bottom(k), true);
}

/// A line is narrowed by exactly the space that the bands level with it reserve, unless nothing
/// would remain of it.
pub proof fn law_narrowing_is_reserved_space(profile: ProfileModel, k: usize)
    requires
        profile.width.is_finite(),
        forall|i: int| 0 <= i < profile.bands.len() ==> (#[trigger] profile.bands[i]).inset.0 >= 0,
    ensures
        ({
            let left = reserved(profile.bands, profile.top(k), profile.bottom(k), false);
            let right = reserved(profile.bands, profile.top(k), profile.bottom(k), true);
            &&& left.0 + right.0 < profile.width.0 ==> profile.at(k).0 == left
                && profile.width.0 - profile.at(k).1.0 == left.0 + right.0
            &&& left.0 + right.0 >= profile.width.0 ==> profile.at(k) == (Abs(0), profile.width)
        }),
{
    lemma_reserved_not_negative(profile.bands, profile.top(k), profile.bottom(k), false);
    lemma_reserved_not_negative(profile.bands, profile.top(k), profile.bottom(k), true);
}

/// Below a band that starts at the top of the paragraph, exactly the lines that start above its
/// bottom are narrowed, by its inset and on its side; all others get the full width.
pub proof fn law_band_narrows_exactly_level_lines(
    band: ExclusionBand,
    width: Abs,
    line_height: Abs,
    leading: Abs,
    k: usize,
)
    requires
        band.y0 == Abs(0),
        0 < band.inset.0 < width.0,
        width.is_finite(),
        line_height.0 > 0,
        leading.0 >= 0,
        (line_height.0 + leading.0) * k + line_height.0 < i64::MAX,
    ensures
        ({
            let line = (ProfileModel { bands: seq![band], width, line_height, leading }).at(k);
            let beside = Abs((width.0 - band.inset.0) as i64);
            if (line_height.0 + leading.0) * k < band.y1.0 {
                line == if band.side is End {
                    (Abs(0), beside)
                } else {
                    (band.inset, beside)
                }
            } else {
                line == (Abs(0), width)
            }
        }),
{
    let bands = seq![band];
    let profile = ProfileModel { bands, width, line_height, leading };
    let pitch = line_height.0 + leading.0;
    assert(pitch * k >= 0) by (nonlinear_arith)
        requires
            pitch >= 0,
            k >= 0,
    ;
    if k > 0 {
        assert(pitch * k >= pitch) by (nonlinear_arith)
            requires
                pitch >= 0,
                k >= 1,
        ;
        assert(profile.top(k).0 == pitch * k);
    } else {
        assert(pitch * 0 == 0);
        assert(profile.top(k).0 == 0);
    }
    assert(bands.drop_last() =~= Seq::<ExclusionBand>::empty());
    reveal_with_fuel(reserved, 2);
}

/// The drop-cap band ends with an opener that fills the cap, and continues past every shorter
/// one that a continuation paragraph follows: an opener of `m` lines leaves `n - m` pitches and
/// one leading of the band, and a leading is less than a pitch.
pub proof fn law_band_continues_past_short_openers(
    n: usize,
    m: usize,
    line_height: Abs,
    leading: Abs,
)
    requires
        1 <= m <= n,
        line_height.0 > 0,
        leading.0 >= 0,
        (line_height.0 + leading.0) * n < i64::MAX,
    ensures
        ({
            let pitch = Abs((line_height.0 + leading.0) as i64);
            let consumed = Abs((m * line_height.0 + (m - 1) * leading.0) as i64);
            &&& pitch.times(n).0 - consumed.0 == (n - m) * pitch.0 + leading.0
            &&& band_should_continue(n, pitch, consumed, true) <==> m < n
        }),
{
    let pitch: int = line_height.0 + leading.0;
    let h: int = line_height.0 as int;
    let l: int = leading.0 as int;
    let mm: int = m as int;
    let nn: int = n as int;
    assert(mm * h + (mm - 1) * l == mm * pitch - l) by (nonlinear_arith)
        requires
            pitch == h + l,
    ;
    assert(mm * pitch <= nn * pitch && pitch * nn == nn * pitch && nn * pitch - mm * pitch == (nn
        - mm) * pitch && pitch <= nn * pitch && 0 <= mm * pitch - l) by (nonlinear_arith)
        requires
            1 <= mm <= nn,
            pitch == h + l,
            h > 0,
            l >= 0,
    ;
    if m < n {
        assert((nn - mm) * pitch >= pitch) by (nonlinear_arith)
            requires
                nn - mm >= 1,
                pitch >= 0,
        ;
    } else {
        assert((nn - mm) * pitch == 0) by (nonlinear_arith)
            requires
                nn == mm,
        ;
    }
}

/// No band continues into a paragraph that does not follow.
pub proof fn law_band_ends_without_continuation(n: usize, pitch: Abs, consumed: Abs)
    ensures
        !band_should_continue(n, pitch, consumed, false),
{
}

/// A band that is exhausted stays so: less of it is no more, and it cannot be revived by higher
/// lines. What is left of a live band is more than half a line.
pub proof fn law_exhaustion_is_monotone(remaining: Abs, less: Abs, line_height: Abs, higher: Abs)
    requires
        less.0 <= remaining.0,
        line_height.0 <= higher.0,
    ensures
        band_is_exhausted(remaining, line_height) ==> band_is_exhausted(less, higher),
        line_height.is_finite() ==> (band_is_exhausted(remaining, line_height) <==> 2 * remaining.0
            <= line_height.0),
{
}

/// Bands take space from the lines that they are level with, each by its inset and on its own side,
/// and add up. A line is level with a band if it reaches into it from above or below, but not if it
/// only touches it.
pub proof fn law_bands_add_up(
    bands: Seq<ExclusionBand>,
    band: ExclusionBand,
    top: Abs,
    bottom: Abs,
)
    ensures
        ({
            let level = top.0 < band.y1.0 && bottom.0 > band.y0.0;
            &&& reserved(Seq::empty(), top, bottom, true) == Abs(0)
            &&& reserved(Seq::empty(), top, bottom, false) == Abs(0)
            &&& reserved(bands.push(band), top, bottom, true) == if level && band.side is End {
                reserved(bands, top, bottom, true).plus(band.inset)
            } else {
                reserved(bands, top, bottom, true)
            }
            &&& reserved(bands.push(band), top, bottom, false) == if level && !(band.side is End) {
                reserved(bands, top, bottom, false).plus(band.inset)
            } else {
                reserved(bands, top, bottom, false)
            }
        }),
{
    assert(bands.push(band).drop_last() =~= bands);
}

/// Lines follow each other by their height and the leading between them, and each one is as high as
/// a line.
pub proof fn law_lines_follow_by_their_pitch(profile: ProfileModel, k: usize)
    requires
        0 <= profile.line_height.0,
        0 <= profile.leading.0,
        (profile.line_height.0 + profile.leading.0) * (k + 1) < i64::MAX,
        k < usize::MAX,
    ensures
        profile.top(0).0 == 0,
        profile.top((k + 1) as usize).0 == profile.bottom(k).0 + profile.leading.0,
        profile.bottom(k).0 == profile.top(k).0 + profile.line_height.0,
{
    let pitch = profile.line_height.0 + profile.leading.0;
    assert(pitch * (k + 1) == pitch * k + pitch && pitch * k >= 0 && pitch * (k + 1) >= pitch)
        by (nonlinear_arith)
        requires
            pitch >= 0,
            k >= 0,
    ;
    assert(pitch * 0 == 0);
}

/// A provider of variable widths says what its profile says.
pub proof fn law_variable_widths_are_those_of_the_profile(profile: &WrapProfile, k: usize)
    ensures
        WidthProvider::Variable(profile).line(k) == profile@.at(k),
        WidthProvider::Variable(profile).full() == profile@.width,
        profile@.narrows(k) <==> profile@.at(k).0.0 != 0 || profile@.at(k).1 != profile@.width,
{
}

} // verus!
