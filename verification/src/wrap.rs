//! Side-wrapping float support.
//!
//! A side-wrapping float reserves a rectangular region on one side of the column
//! ([`ExclusionBand`]); in-flow paragraph text reflows into the remaining measure for the lines
//! level with it. Because the line breaker commits lines strictly in order, it can ask a
//! [`WrapProfile`] for the available width of each line *by index*: it never needs to know a
//! line's eventual vertical position, which is only resolved later by the distributor.
use ecow::EcoVec;
use vstd::prelude::*;

use crate::bands::{band_seq, band_slice, clone_bands, has_no_bands, no_bands};
use crate::geom::{Abs, FixedAlignment};

verus! {

/// A rectangular region that in-flow text must avoid, wrapping into the space beside it.
///
/// Coordinates are paragraph-relative: `y = 0` is the top of the paragraph that wraps around the
/// band.
#[derive(Clone, Copy, Debug, PartialEq, Eq, Structural, Hash)]
pub struct ExclusionBand {
    /// Top of the reserved region, paragraph-relative.
    pub y0: Abs,
    /// Bottom of the reserved region, paragraph-relative.
    pub y1: Abs,
    /// Horizontal space reserved on `side`, including the clearance gutter.
    pub inset: Abs,
    /// `Start` for a left float, `End` for a right float.
    pub side: FixedAlignment,
}

impl ExclusionBand {
    pub open spec fn spec_level_with(self, top: Abs, bottom: Abs) -> bool {
        top.0 < self.y1.0 && bottom.0 > self.y0.0
    }

    /// Whether a line with the given vertical extent is level with any part of the band. A line
    /// that straddles an edge of the band is.
    #[verifier::when_used_as_spec(spec_level_with)]
    pub fn level_with(self, top: Abs, bottom: Abs) -> (result: bool)
        ensures
            result == self.spec_level_with(top, bottom),
    {
        top.0 < self.y1.0 && bottom.0 > self.y0.0
    }

    /// Whether the band takes space from a line with the given extent on the given side. A band
    /// whose side is not `End` reserves from the start.
    pub open spec fn takes(self, top: Abs, bottom: Abs, at_end: bool) -> bool {
        self.level_with(top, bottom) && (self.side is End) == at_end
    }
}

/// The space that the bands together take from one side of a line.
pub open spec fn reserved(bands: Seq<ExclusionBand>, top: Abs, bottom: Abs, at_end: bool) -> Abs
    decreases bands.len(),
{
    if bands.len() == 0 {
        Abs(0)
    } else {
        let before = reserved(bands.drop_last(), top, bottom, at_end);
        if bands.last().takes(top, bottom, at_end) {
            before.plus(bands.last().inset)
        } else {
            before
        }
    }
}

/// The offset and measure of a line that has `left` and `right` taken from its sides: the full
/// width at offset zero where nothing is taken or where nothing would remain.
pub open spec fn narrowed(width: Abs, left: Abs, right: Abs) -> (Abs, Abs) {
    let available = width.minus(left).minus(right);
    if (left.0 == 0 && right.0 == 0) || available.0 <= 0 {
        (Abs(0), width)
    } else {
        (left, available)
    }
}

/// What a wrap profile says, independently of how its bands are stored.
#[verifier::ext_equal]
pub struct ProfileModel {
    /// The bands, in order.
    pub bands: Seq<ExclusionBand>,
    /// The full text width.
    pub width: Abs,
    /// Estimated height of a single line box.
    pub line_height: Abs,
    /// Leading inserted between consecutive lines.
    pub leading: Abs,
}

impl ProfileModel {
    /// The top of line `k`: that many line pitches below the top of the paragraph.
    pub open spec fn top(self, k: usize) -> Abs {
        self.line_height.plus(self.leading).times(k)
    }

    /// The bottom of line `k`.
    pub open spec fn bottom(self, k: usize) -> Abs {
        self.top(k).plus(self.line_height)
    }

    /// Whether line `k` does not get the full width at offset zero.
    pub open spec fn narrows(self, k: usize) -> bool {
        self.at(k) != (Abs(0), self.width)
    }

    /// The offset and measure of line `k`.
    pub open spec fn at(self, k: usize) -> (Abs, Abs) {
        narrowed(
            self.width,
            reserved(self.bands, self.top(k), self.bottom(k), false),
            reserved(self.bands, self.top(k), self.bottom(k), true),
        )
    }
}

/// The horizontal offset and available width of line `k` of a paragraph that wraps around the
/// given bands.
pub fn line_measure(
    bands: &[ExclusionBand],
    width: Abs,
    line_height: Abs,
    leading: Abs,
    k: usize,
) -> (result: (Abs, Abs))
    ensures
        result == (ProfileModel { bands: bands@, width, line_height, leading }).at(k),
{
    let pitch = line_height + leading;
    let top = pitch.times(k);
    let bottom = top + line_height;

    // Accumulate the insets contributed by overlapping bands on each side.
    let mut left = Abs::zero();
    let mut right = Abs::zero();
    let mut i: usize = 0;
    while i < bands.len()
        invariant
            i <= bands@.len(),
            left == reserved(bands@.take(i as int), top, bottom, false),
            right == reserved(bands@.take(i as int), top, bottom, true),
        decreases bands@.len() - i,
    {
        let band = bands[i];
        assert(bands@.take(i + 1).drop_last() =~= bands@.take(i as int));
        if band.level_with(top, bottom) {
            match band.side {
                FixedAlignment::End => {
                    right = right + band.inset;
                },
                _ => {
                    left = left + band.inset;
                },
            }
        }
        i += 1;
    }
    assert(bands@.take(i as int) =~= bands@);

    if left.0 == 0 && right.0 == 0 {
        return (Abs::zero(), width);
    }
    let available = width - left - right;
    // A float at least as wide as the measure falls back to the full width, so that the breaker
    // never sees a non-positive measure.
    if available.0 <= 0 {
        return (Abs::zero(), width);
    }
    (left, available)
}

/// A per-line-index table of available widths for a paragraph that wraps around one or more
/// [`ExclusionBand`]s.
///
/// The breaker queries [`WrapProfile::at`] by line index rather than by a vertical coordinate,
/// since lines are committed in order while their actual `y` is resolved later. The table is
/// derived from the bands plus an estimate of the line pitch (line height + leading).
///
/// An empty profile (no bands) is equivalent to uniform full-width breaking.
#[derive(Debug, PartialEq, Eq, Hash)]
pub struct WrapProfile {
    /// Bands intersecting this paragraph, paragraph-relative.
    bands: EcoVec<ExclusionBand>,
    /// The full text width (the measure with no exclusion).
    width: Abs,
    /// Estimated height of a single line box.
    line_height: Abs,
    /// Leading inserted between consecutive lines.
    leading: Abs,
}

impl View for WrapProfile {
    type V = ProfileModel;

    closed spec fn view(&self) -> ProfileModel {
        ProfileModel {
            bands: band_seq(self.bands),
            width: self.width,
            line_height: self.line_height,
            leading: self.leading,
        }
    }
}

impl WrapProfile {
    /// Create a profile from its bands and line metrics.
    pub fn new(bands: EcoVec<ExclusionBand>, width: Abs, line_height: Abs, leading: Abs) -> (result:
        WrapProfile)
        ensures
            result@ == (ProfileModel { bands: band_seq(bands), width, line_height, leading }),
    {
        WrapProfile { bands, width, line_height, leading }
    }

    /// Whether this profile narrows no line (equivalent to uniform breaking).
    pub fn is_empty(&self) -> (result: bool)
        ensures
            result == (self@.bands.len() == 0),
    {
        has_no_bands(&self.bands)
    }

    /// The full (un-narrowed) text width.
    pub fn width(&self) -> (result: Abs)
        ensures
            result == self@.width,
    {
        self.width
    }

    /// The horizontal offset and available width for line index `k`.
    ///
    /// Returns `(x_offset, available)`, where `x_offset` is the distance from the column's start
    /// edge at which the line should be placed and `available` is the line's measure. Lines that
    /// clear all bands get the full width at offset zero.
    pub fn at(&self, k: usize) -> (result: (Abs, Abs))
        ensures
            result == self@.at(k),
    {
        line_measure(band_slice(&self.bands), self.width, self.line_height, self.leading, k)
    }

    /// Whether line index `k` does not get the full width at offset zero.
    pub fn narrows(&self, k: usize) -> (result: bool)
        ensures
            result == self@.narrows(k),
    {
        let (x_offset, available) = self.at(k);
        x_offset != Abs::zero() || available != self.width
    }
}

impl Clone for WrapProfile {
    fn clone(&self) -> (result: WrapProfile)
        ensures
            result@ == self@,
    {
        WrapProfile {
            bands: clone_bands(&self.bands),
            width: self.width,
            line_height: self.line_height,
            leading: self.leading,
        }
    }
}

impl Default for WrapProfile {
    fn default() -> (result: WrapProfile)
        ensures
            result@ == (ProfileModel {
                bands: Seq::empty(),
                width: Abs(0),
                line_height: Abs(0),
                leading: Abs(0),
            }),
    {
        WrapProfile {
            bands: no_bands(),
            width: Abs::zero(),
            line_height: Abs::zero(),
            leading: Abs::zero(),
        }
    }
}

pub open spec fn spec_band_should_continue(
    n: usize,
    pitch: Abs,
    consumed: Abs,
    continuation_follows: bool,
) -> bool {
    pitch.times(n).minus(consumed).0 >= pitch.0 && continuation_follows
}

/// Whether a drop-cap exclusion band should continue past its opener paragraph.
///
/// An opener of M lines consumes `consumed` of a full band of height `pitch * n`. The band
/// continues iff at least one full line pitch of it is left and a continuation paragraph actually
/// follows.
///
/// The floor of a full pitch is load-bearing: an opener that exactly fills the cap still leaves
/// one leading of the band, and a leading can exceed half a line. Since the leading is always
/// less than the pitch, the band ends for M = n and continues for every M < n.
#[verifier::when_used_as_spec(spec_band_should_continue)]
pub fn band_should_continue(
    n: usize,
    pitch: Abs,
    consumed: Abs,
    continuation_follows: bool,
) -> (result: bool)
    ensures
        result == spec_band_should_continue(n, pitch, consumed, continuation_follows),
{
    let left_over = pitch.times(n) - consumed;
    left_over.0 >= pitch.0 && continuation_follows
}

pub open spec fn spec_band_is_exhausted(remaining: Abs, line_height: Abs) -> bool {
    remaining.0 <= line_height.half().0
}

/// Whether a still-live band is exhausted: a residual of half a line or less ends the run.
#[verifier::when_used_as_spec(spec_band_is_exhausted)]
pub fn band_is_exhausted(remaining: Abs, line_height: Abs) -> (result: bool)
    ensures
        result == spec_band_is_exhausted(remaining, line_height),
{
    remaining.0 <= line_height.half().0
}

/// Supplies the available width for each line to the line breaker.
#[derive(Clone, Copy, Debug)]
pub enum WidthProvider<'a> {
    /// A single measure for every line.
    Uniform(Abs),
    /// A per-line width table for a wrapping paragraph.
    Variable(&'a WrapProfile),
}

impl<'a> WidthProvider<'a> {
    /// The offset and measure of line `k`.
    pub open spec fn line(self, k: usize) -> (Abs, Abs) {
        match self {
            WidthProvider::Uniform(width) => (Abs(0), width),
            WidthProvider::Variable(profile) => profile@.at(k),
        }
    }

    /// The measure of a line that nothing narrows.
    pub open spec fn full(self) -> Abs {
        match self {
            WidthProvider::Uniform(width) => width,
            WidthProvider::Variable(profile) => profile@.width,
        }
    }

    /// The horizontal offset and available width for line index `k`.
    pub fn at(&self, k: usize) -> (result: (Abs, Abs))
        ensures
            result == self.line(k),
    {
        match self {
            WidthProvider::Uniform(width) => (Abs::zero(), *width),
            WidthProvider::Variable(profile) => profile.at(k),
        }
    }

    /// The available width for line index `k` (ignoring the offset).
    pub fn width_at(&self, k: usize) -> (result: Abs)
        ensures
            result == self.line(k).1,
    {
        self.at(k).1
    }

    /// The full measure with no exclusion. Used to derive how much a band narrows a given line.
    pub fn full_width(&self) -> (result: Abs)
        ensures
            result == self.full(),
    {
        match self {
            WidthProvider::Uniform(width) => *width,
            WidthProvider::Variable(profile) => profile.width(),
        }
    }
}

} // verus!
