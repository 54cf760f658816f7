//! Paragraphs that wrap around floats.
use vstd::prelude::*;

use super::{ActiveBand, DistModel, Distributor};
use crate::bands::one_band;
use crate::child::{Child, DeferredParChild, LineChild, WrapSpill, WrapSpillModel};
use crate::engine::{erred, viewed, Request, RequestModel, Stop, StopModel};
use crate::frame::{mark_par_end, par_end_marked, Frame, Scale};
use crate::geom::{Abs, Axes, FixedAlignment, Ratio, Rel, Size};
use crate::item::Item;
use crate::lines::{build_line_children, line_children};
use crate::region::{Regions, RegionsModel};
use crate::util::copy_from;
use crate::work::WorkModel;
use crate::wrap::{
    band_is_exhausted, band_should_continue, ExclusionBand, ProfileModel, WrapProfile,
};

verus! {

/// By how much the height of a line may differ from that of its siblings, in raw units, for the
/// lines to count as equally high.
pub const PITCH_TOLERANCE: i64 = 10_000;

/// The ratio of the text size that is taken for the cap height where no font is available.
pub const DEFAULT_CAP_RATIO: i64 = 700_000;

/// The first length that is positive, or the fallback.
pub open spec fn first_positive_height(frames: Seq<Frame>, fallback: Abs) -> Abs
    decreases frames.len(),
{
    if frames.len() == 0 {
        fallback
    } else if frames[0].height().0 > 0 {
        frames[0].height()
    } else {
        first_positive_height(frames.skip(1), fallback)
    }
}

/// Whether any of the frames is not about as high as a line.
pub open spec fn pitch_varies(frames: Seq<Frame>, line_height: Abs) -> bool {
    exists|i: int|
        0 <= i < frames.len() && !(-PITCH_TOLERANCE <= (#[trigger] frames[i]).height().minus(
            line_height,
        ).0 <= PITCH_TOLERANCE)
}

/// The sum of the heights of the frames.
pub open spec fn heights(frames: Seq<Frame>) -> Abs
    decreases frames.len(),
{
    if frames.len() == 0 {
        Abs(0)
    } else {
        heights(frames.drop_last()).plus(frames.last().height())
    }
}

/// How many gaps there are between `n` lines.
pub open spec fn gaps(n: int) -> usize {
    if n > 0 {
        (n - 1) as usize
    } else {
        0
    }
}

/// The height of the lines with the leading between them.
pub open spec fn lines_height(frames: Seq<Frame>, leading: Abs) -> Abs {
    heights(frames).plus(leading.times(gaps(frames.len() as int)))
}

/// The cap height of the first font that is available, for the given text size. A typical ratio
/// stands in where no font is.
pub open spec fn cap_height(size: Abs, fonts: Seq<Option<Ratio>>) -> Abs
    decreases fonts.len(),
{
    if fonts.len() == 0 {
        Ratio(DEFAULT_CAP_RATIO).of(size)
    } else {
        match fonts[0] {
            Some(ratio) => ratio.of(size),
            None => cap_height(size, fonts.skip(1)),
        }
    }
}

/// Resolve the body cap-height for a paragraph's dominant text size, from the first available
/// font family. Used by the drop-cap anchor and scale so the registration is font-independent.
pub fn body_cap_height(size: Abs, fonts: &Vec<Option<Ratio>>) -> (result: Abs)
    ensures
        result == cap_height(size, fonts@),
{
    let mut i: usize = 0;
    assert(fonts@.skip(0) =~= fonts@);
    while i < fonts.len()
        invariant
            i <= fonts@.len(),
            cap_height(size, fonts@) == cap_height(size, fonts@.skip(i as int)),
        decreases fonts@.len() - i,
    {
        if let Some(ratio) = fonts[i] {
            return ratio.of(size);
        }
        assert(fonts@.skip(i as int).skip(1) =~= fonts@.skip(i + 1));
        i += 1;
    }
    Ratio(DEFAULT_CAP_RATIO).of(size)
}

/// The height of a cap that spans `n` lines: from the top of the first line's capitals to the
/// last line's baseline.
pub open spec fn cap_target(pitch: Abs, n: usize, cap: Abs) -> Abs {
    pitch.times(gaps(n as int)).plus(cap)
}

/// How many of the `n` lines that a drop cap may span it does span beside a paragraph of the given
/// number of lines: all of them where the band continues, else no more than there are, but at
/// least one.
pub open spec fn cap_span(n: usize, lines: nat, active: bool) -> usize {
    if active || lines >= n {
        n
    } else if lines == 0 {
        1
    } else {
        lines as usize
    }
}

/// The factor that makes a frame of the given height as high as the target. A frame without
/// height is left as it is.
pub open spec fn cap_scale(target: Abs, height: Abs) -> Scale {
    if height.0 > 0 {
        Scale { num: target, den: height }
    } else {
        Scale { num: Abs(1), den: Abs(1) }
    }
}

/// The factor that makes a frame of the given height as high as the target.
fn scale_to(target: Abs, height: Abs) -> (result: Scale)
    ensures
        result == cap_scale(target, height),
        result.den.0 > 0,
{
    if height.0 > 0 {
        Scale { num: target, den: height }
    } else {
        Scale { num: Abs(1), den: Abs(1) }
    }
}

/// The number of gaps between `n` lines.
fn gap_count(n: usize) -> (result: usize)
    ensures
        result == gaps(n as int),
{
    if n > 0 {
        n - 1
    } else {
        0
    }
}

/// The height of the lines with the leading between them.
pub fn height_of_lines(lines: &Vec<LineChild>, leading: Abs) -> (result: Abs)
    ensures
        result == lines_height(line_frames(lines@), leading),
{
    let ghost frames = line_frames(lines@);
    let mut sum = Abs::zero();
    let mut i: usize = 0;
    while i < lines.len()
        invariant
            i <= lines@.len(),
            frames == line_frames(lines@),
            sum == heights(frames.take(i as int)),
        decreases lines@.len() - i,
    {
        sum = sum + lines[i].frame.height();
        i += 1;
        assert(frames.take(i as int).drop_last() =~= frames.take(i - 1));
    }
    assert(frames.take(i as int) =~= frames);
    sum + leading.times(gap_count(lines.len()))
}

/// The frames of the lines.
pub open spec fn line_frames(lines: Seq<LineChild>) -> Seq<Frame> {
    lines.map_values(|line: LineChild| line.frame)
}

impl DeferredParChild {
    /// How many lines the preceding float spans as a drop cap, if it does.
    pub open spec fn cap_lines(self) -> Option<usize> {
        match self.dropcap {
            Some(n) => if n >= 1 {
                Some(n)
            } else {
                None
            },
            None => None,
        }
    }
}

/// What is known of a paragraph that wraps beside a float before it is broken into lines.
pub struct WrapSetup {
    /// The float.
    pub float: Frame,
    /// The side that the float stands on.
    pub side: FixedAlignment,
    /// The number of lines and the cap height of the text, for a drop cap.
    pub cap: Option<(usize, Abs)>,
    /// The height of a line.
    pub line_height: Abs,
}

/// What follows from breaking the paragraph into lines.
pub struct WrapPlan {
    /// The bottom of the band that the paragraph has to clear.
    pub bottom: Abs,
    /// The scaled frame of a drop cap and its vertical anchor.
    pub cap: Option<(Frame, Abs)>,
    /// The band that continues into the next paragraph, if it does.
    pub band: Option<ActiveBand>,
}

impl DeferredParChild {
    /// The bottom of the band beside which the lines are narrowed: as many pitches as a drop cap
    /// spans lines, else the float's height and clearance.
    pub open spec fn band_bottom(self, float: Frame, cap: Option<usize>, line_height: Abs) -> Abs {
        match cap {
            Some(n) => line_height.plus(self.elem.leading).times(n),
            None => float.height().plus(self.clearance),
        }
    }

    /// The width of the float beside the lines. A drop cap is scaled to span its lines.
    pub open spec fn float_width(self, setup: WrapSetup) -> Abs {
        match setup.cap {
            Some((n, cap)) => {
                let pitch = setup.line_height.plus(self.elem.leading);
                let scale = cap_scale(cap_target(pitch, n, cap), setup.float.height());
                setup.float.width().scaled(scale.num, scale.den)
            },
            None => setup.float.width(),
        }
    }

    /// The band that narrows the lines.
    pub open spec fn band(self, setup: WrapSetup) -> ExclusionBand {
        let cap = match setup.cap {
            Some((n, _)) => Some(n),
            None => None,
        };
        ExclusionBand {
            y0: Abs(0),
            y1: self.band_bottom(setup.float, cap, setup.line_height),
            inset: self.float_width(setup).plus(self.clearance),
            side: setup.side,
        }
    }

    /// The widths of the lines in a column of the given width.
    pub open spec fn profile(self, setup: WrapSetup, width: Abs) -> ProfileModel {
        ProfileModel {
            bands: seq![self.band(setup)],
            width,
            line_height: setup.line_height,
            leading: self.elem.leading,
        }
    }

    /// Whether the band outlives the paragraph by enough to continue into the next one: by a full
    /// pitch beside a drop cap, by half a line beside any other float.
    pub open spec fn outlived(self, setup: WrapSetup, frames: Seq<Frame>) -> bool {
        let height = lines_height(frames, self.elem.leading);
        match setup.cap {
            Some((n, _)) => band_should_continue(
                n,
                setup.line_height.plus(self.elem.leading),
                height,
                true,
            ),
            None => self.band(setup).y1.minus(height).0 >= setup.line_height.half_up().0,
        }
    }

    /// The plan for a drop cap. The cap keeps all its lines where the band continues, else it is
    /// no higher than the paragraph. It is scaled so that its top registers on the first line's
    /// cap-top and its baseline on the last line's baseline.
    pub open spec fn cap_plan(
        self,
        setup: WrapSetup,
        frames: Seq<Frame>,
        n: usize,
        cap: Abs,
        active: bool,
    ) -> WrapPlan {
        let leading = self.elem.leading;
        let pitch = setup.line_height.plus(leading);
        let lines = cap_span(n, frames.len(), active);
        let baseline = if frames.len() > 0 {
            frames[0].baseline_or_height()
        } else {
            Abs(0)
        };
        let scale = cap_scale(cap_target(pitch, lines, cap), setup.float.height());
        let scaled = setup.float.scaled_by(scale);
        WrapPlan {
            bottom: pitch.times(lines),
            cap: Some((scaled, baseline.minus(cap))),
            band: if active {
                // The band ends at the cap's visual baseline rather than at the bottom of the
                // last line box.
                Some(
                    ActiveBand {
                        remaining: baseline.plus(pitch.times(gaps(lines as int))).minus(
                            lines_height(frames, leading),
                        ).max(Abs(0)),
                        inset: scaled.width().plus(self.clearance),
                        side: setup.side,
                        pitch,
                        leading,
                        gap: leading,
                    },
                )
            } else {
                None
            },
        }
    }

    /// The plan for any other float.
    pub open spec fn float_plan(
        self,
        setup: WrapSetup,
        frames: Seq<Frame>,
        active: bool,
    ) -> WrapPlan {
        let leading = self.elem.leading;
        let bottom = self.band(setup).y1;
        WrapPlan {
            bottom,
            cap: None,
            band: if active {
                Some(
                    ActiveBand {
                        remaining: bottom.minus(lines_height(frames, leading)).max(Abs(0)),
                        inset: setup.float.width().plus(self.clearance),
                        side: setup.side,
                        pitch: setup.line_height.plus(leading),
                        leading,
                        gap: self.elem.spacing,
                    },
                )
            } else {
                None
            },
        }
    }

    /// The plan for the paragraph, once it is broken into lines.
    pub open spec fn plan(self, setup: WrapSetup, frames: Seq<Frame>, follows: bool) -> WrapPlan {
        let active = follows && self.outlived(setup, frames);
        match setup.cap {
            Some((n, cap)) => self.cap_plan(setup, frames, n, cap, active),
            None => self.float_plan(setup, frames, active),
        }
    }
}

impl ActiveBand {
    /// The band below the gap that each continuation paragraph owns. The gap consumes some of it.
    pub open spec fn after_gap(self) -> ActiveBand {
        ActiveBand { remaining: self.remaining.minus(self.gap).max(Abs(0)), ..self }
    }

    /// The widths of the lines of a paragraph that starts at the top of what remains.
    pub open spec fn profile(self, width: Abs) -> ProfileModel {
        ProfileModel {
            bands: seq![
                ExclusionBand {
                    y0: Abs(0),
                    y1: self.remaining,
                    inset: self.inset,
                    side: self.side,
                },
            ],
            width,
            line_height: self.pitch.minus(self.leading),
            leading: self.leading,
        }
    }
}

impl RegionsModel {
    /// The index of the first of the lines from index `i` on that has to go to the next region, or
    /// the number of lines if none has to.
    pub open spec fn first_moved(self, lines: Seq<LineChild>, i: int, leading: Abs) -> int
        decreases lines.len() - i,
    {
        if i >= lines.len() {
            lines.len() as int
        } else {
            let height = lines[i].frame.height();
            let led = if i > 0 {
                self.with_y(self.size.y.minus(leading))
            } else {
                self
            };
            if led.must_move_on(height, lines[i].need) {
                i
            } else {
                led.with_y(led.size.y.minus(height)).first_moved(lines, i + 1, leading)
            }
        }
    }

    /// Whether a line that is narrowed beside a band would go to the next region, where nothing
    /// stands beside it.
    pub open spec fn narrow_line_moves(
        self,
        lines: Seq<LineChild>,
        leading: Abs,
        profile: ProfileModel,
    ) -> bool {
        exists|k: usize|
            self.first_moved(lines, 0, leading) <= k < lines.len() && #[trigger] profile.narrows(k)
    }
}

impl DistModel {
    /// The lines of a paragraph at the given size.
    pub open spec fn par_lines(
        self,
        d: DeferredParChild,
        base: Size,
        profile: Option<ProfileModel>,
    ) -> (DistModel, Result<Seq<Frame>, StopModel>) {
        match self.composer.engine.ask_frames(d.request(base, profile)) {
            (engine, Ok(frames)) => (self.with_engine(engine), Ok(frames)),
            (engine, Err(error)) => (self.with_engine(engine), Err(StopModel::Error(error))),
        }
    }

    /// The height of a line of the paragraph: that of its first line that has any when broken at
    /// full width, else the size of its text.
    pub open spec fn line_height_of(self, d: DeferredParChild) -> (
        DistModel,
        Result<Abs, StopModel>,
    ) {
        match self.par_lines(d, self.regions.size, None) {
            (state, Ok(frames)) => (
                state,
                Ok(first_positive_height(frames, d.elem.text_size)),
            ),
            (state, Err(stop)) => (state, Err(stop)),
        }
    }

    /// The cap height of the paragraph's text.
    pub open spec fn cap_height_of(self, d: DeferredParChild) -> (
        DistModel,
        Result<Abs, StopModel>,
    ) {
        match self.composer.engine.ask_cap_heights(RequestModel::CapHeights { elem: d.elem }) {
            (engine, Ok(fonts)) => (
                self.with_engine(engine),
                Ok(cap_height(d.elem.text_size, fonts)),
            ),
            (engine, Err(error)) => (self.with_engine(engine), Err(StopModel::Error(error))),
        }
    }

    /// With the lines that remain carried to the next region.
    pub open spec fn with_lines_carried(self, rest: WrapSpillModel, advance: bool) -> DistModel {
        let work = WorkModel { wrap_spill: Some(rest), ..self.composer.work };
        self.with_work(
            if advance {
                work.advanced()
            } else {
                work
            },
        )
    }

    /// With the leading before line `i`.
    pub open spec fn with_leading(self, i: int, leading: Abs) -> DistModel {
        if i > 0 {
            self.with_rel(Rel::absolute(leading), 5)
        } else {
            self
        }
    }

    /// With the lines from index `i` on. The first line that has to go to the next region takes
    /// all that follow it along. Where all lines fit, the paragraph spacing follows.
    pub open spec fn with_lines(
        self,
        lines: Seq<LineChild>,
        i: int,
        leading: Abs,
        spacing: Abs,
        advance: bool,
        trailing: bool,
    ) -> (DistModel, Result<(), StopModel>)
        decreases lines.len() - i,
    {
        if i >= lines.len() {
            (
                if trailing {
                    self.with_rel(Rel::absolute(spacing), 4)
                } else {
                    self
                },
                Ok(()),
            )
        } else {
            let state = self.with_leading(i, leading);
            if state.line_must_move(lines[i]) {
                let rest = WrapSpillModel { lines: lines.skip(i), leading, spacing };
                (state.with_lines_carried(rest, advance), Err(StopModel::Finish(false)))
            } else {
                match state.with_frame(lines[i].frame, lines[i].align, false, false) {
                    (state, Ok(())) => state.with_lines(
                        lines,
                        i + 1,
                        leading,
                        spacing,
                        advance,
                        trailing,
                    ),
                    (state, Err(stop)) => (state, Err(stop)),
                }
            }
        }
    }

    /// With carried lines.
    pub open spec fn with_wrap_spill(self, spill: WrapSpillModel) -> (
        DistModel,
        Result<(), StopModel>,
    ) {
        if self.regions.is_full() {
            (
                self.with_work(WorkModel { wrap_spill: Some(spill), ..self.composer.work }),
                Err(StopModel::Finish(false)),
            )
        } else {
            self.with_lines(spill.lines, 0, spill.leading, spill.spacing, false, true)
        }
    }

    /// With a deferred paragraph at full width.
    pub open spec fn with_uniform_par(self, d: DeferredParChild) -> (
        DistModel,
        Result<(), StopModel>,
    ) {
        match self.par_lines(d, d.base, None) {
            (state, Ok(frames)) => {
                let lines = line_children(par_end_marked(frames), d.elem.leading, d.elem.style);
                state.with_tags_flushed().with_rel(Rel::absolute(d.elem.spacing), 4).with_lines(
                    lines,
                    0,
                    d.elem.leading,
                    d.elem.spacing,
                    true,
                    true,
                )
            },
            (state, Err(stop)) => (state, Err(stop)),
        }
    }

    /// With the float at the end turned into a frame that takes up its height.
    pub open spec fn with_float_reserved(self, frame: Frame, side: FixedAlignment) -> DistModel {
        if self.items.len() > 0 && self.items.last() is WrapFloat {
            DistModel {
                items: self.items.drop_last().push(
                    Item::Frame(frame, Axes { x: side, y: FixedAlignment::Start }),
                ),
                ..self.with_y(self.y().minus(frame.height()))
            }
        } else {
            self
        }
    }

    /// With the float reserved and the paragraph below it at full width.
    pub open spec fn with_wrap_fallback(
        self,
        d: DeferredParChild,
        frame: Frame,
        side: FixedAlignment,
    ) -> (DistModel, Result<(), StopModel>) {
        self.with_float_reserved(frame, side).with_uniform_par(d)
    }

    /// Whether the float was laid out for the region at hand and the band fits into what remains
    /// of it.
    pub open spec fn band_fits(self, d: DeferredParChild, bottom: Abs) -> bool {
        self.regions.full == d.base.y && self.y().fits(bottom)
    }

    /// Whether a continuation paragraph follows.
    pub open spec fn continuation_follows(self) -> bool {
        self.composer.work.next_child() matches Some(Child::Deferred(next)) && next.continuation
    }

    /// With the float at the end redrawn as a scaled drop cap.
    pub open spec fn with_cap(self, cap: Option<(Frame, Abs)>) -> DistModel {
        match cap {
            Some((scaled, y_delta)) => if self.items.len() > 0 {
                match self.items.last() {
                    Item::WrapFloat(_, side, _) => DistModel {
                        items: self.items.drop_last().push(Item::WrapFloat(scaled, side, y_delta)),
                        ..self
                    },
                    _ => self,
                }
            } else {
                self
            },
            None => self,
        }
    }

    /// With a paragraph that was broken beside a float as planned. Where the band continues, the
    /// next paragraph owns the gap between the two; else the total advance is at least the
    /// bottom of the band.
    pub open spec fn with_planned_lines(
        self,
        d: DeferredParChild,
        frames: Seq<Frame>,
        plan: WrapPlan,
    ) -> (DistModel, Result<(), StopModel>) {
        let lines = line_children(frames, d.elem.leading, d.elem.style);
        let state = self.with_cap(plan.cap).with_tags_flushed().with_rel(
            Rel::absolute(d.elem.spacing),
            4,
        );
        match state.with_lines(
            lines,
            0,
            d.elem.leading,
            d.elem.spacing,
            true,
            plan.band is None,
        ) {
            (state, Err(stop)) => (state, Err(stop)),
            (state, Ok(())) => {
                let advanced = lines_height(frames, d.elem.leading).plus(d.elem.spacing);
                if plan.band is Some {
                    (DistModel { band: plan.band, ..state }, Ok(()))
                } else if advanced.0 < plan.bottom.0 {
                    (state.with_gap(plan.bottom.minus(advanced)), Ok(()))
                } else {
                    (state, Ok(()))
                }
            },
        }
    }

    /// Whether a line beside the float would go to the next region, below the spacing before the
    /// paragraph.
    pub open spec fn band_straddles(
        self,
        d: DeferredParChild,
        setup: WrapSetup,
        frames: Seq<Frame>,
    ) -> bool {
        self.with_rel(Rel::absolute(d.elem.spacing), 4).regions.narrow_line_moves(
            line_children(frames, d.elem.leading, d.elem.style),
            d.elem.leading,
            d.profile(setup, self.regions.size.x),
        )
    }

    /// With a paragraph broken beside a float. Where the widths of the lines are unreliable or the
    /// lines beside the float do not all stay with it, the paragraph goes below the float.
    pub open spec fn with_wrapped_par(self, d: DeferredParChild, setup: WrapSetup) -> (
        DistModel,
        Result<(), StopModel>,
    ) {
        let profile = d.profile(setup, self.regions.size.x);
        match self.par_lines(d, d.base, Some(profile)) {
            (state, Err(stop)) => (state, Err(stop)),
            (state, Ok(frames)) => if pitch_varies(frames, setup.line_height)
                || state.band_straddles(d, setup, frames) {
                state.with_wrap_fallback(d, setup.float, setup.side)
            } else {
                state.with_planned_lines(
                    d,
                    frames,
                    d.plan(setup, frames, state.continuation_follows()),
                )
            },
        }
    }

    /// With a paragraph beside a drop cap of `n` lines.
    pub open spec fn with_capped_par(
        self,
        d: DeferredParChild,
        float: Frame,
        side: FixedAlignment,
        n: usize,
    ) -> (DistModel, Result<(), StopModel>) {
        match self.line_height_of(d) {
            (state, Err(stop)) => (state, Err(stop)),
            (state, Ok(line_height)) => if !state.band_fits(
                d,
                d.band_bottom(float, Some(n), line_height),
            ) {
                state.with_wrap_fallback(d, float, side)
            } else {
                match state.cap_height_of(d) {
                    (state, Err(stop)) => (state, Err(stop)),
                    (state, Ok(cap)) => state.with_wrapped_par(
                        d,
                        WrapSetup { float, side, cap: Some((n, cap)), line_height },
                    ),
                }
            },
        }
    }

    /// With a paragraph beside a float that is not a drop cap.
    pub open spec fn with_floated_par(
        self,
        d: DeferredParChild,
        float: Frame,
        side: FixedAlignment,
    ) -> (DistModel, Result<(), StopModel>) {
        if !self.band_fits(d, d.band_bottom(float, None, Abs(0))) {
            self.with_wrap_fallback(d, float, side)
        } else {
            match self.line_height_of(d) {
                (state, Err(stop)) => (state, Err(stop)),
                (state, Ok(line_height)) => state.with_wrapped_par(
                    d,
                    WrapSetup { float, side, cap: None, line_height },
                ),
            }
        }
    }

    /// With a deferred paragraph: beside the float that was placed just before it, if there is
    /// one.
    pub open spec fn with_deferred_par(self, d: DeferredParChild) -> (
        DistModel,
        Result<(), StopModel>,
    ) {
        let state = DistModel { pending: None, ..self };
        match self.pending {
            None => state.with_uniform_par(d),
            Some((float, side)) => match d.cap_lines() {
                Some(n) => state.with_capped_par(d, float, side, n),
                None => state.with_floated_par(d, float, side),
            },
        }
    }

    /// With the lines of a continuation paragraph emitted beside the rest of a band. The band
    /// lives on while more than half a line of it remains; it does not cross a region break.
    pub open spec fn with_band_lines(
        self,
        d: DeferredParChild,
        frames: Seq<Frame>,
        band: ActiveBand,
        line_height: Abs,
    ) -> (DistModel, Result<(), StopModel>) {
        let marked = par_end_marked(frames);
        let lines = line_children(marked, band.leading, d.elem.style);
        match self.with_lines(lines, 0, band.leading, d.elem.spacing, true, true) {
            (state, Err(stop)) => (DistModel { band: None, ..state }, Err(stop)),
            (state, Ok(())) => {
                let remaining = band.remaining.minus(lines_height(marked, band.leading)).max(
                    Abs(0),
                );
                (
                    DistModel {
                        band: if band_is_exhausted(remaining, line_height) {
                            None
                        } else {
                            Some(ActiveBand { remaining, ..band })
                        },
                        ..state
                    },
                    Ok(()),
                )
            },
        }
    }

    /// With the gap before a continuation paragraph, and the lines of the paragraph beside the
    /// rest of the band.
    pub open spec fn asked_beside(self, d: DeferredParChild, band: ActiveBand) -> (
        DistModel,
        Result<Seq<Frame>, StopModel>,
    ) {
        self.with_tags_flushed().with_rel(Rel::absolute(band.gap), 4).par_lines(
            d,
            d.base,
            Some(band.after_gap().profile(self.regions.size.x)),
        )
    }

    /// Whether a line of a continuation paragraph beside the rest of a band would go to the next
    /// region.
    pub open spec fn rest_straddles(
        self,
        d: DeferredParChild,
        band: ActiveBand,
        frames: Seq<Frame>,
    ) -> bool {
        self.regions.narrow_line_moves(
            line_children(par_end_marked(frames), band.leading, d.elem.style),
            band.leading,
            band.profile(self.regions.size.x),
        )
    }

    /// With a continuation paragraph beside the rest of a band. Where the widths of the lines are
    /// unreliable or the lines beside the float do not all stay with it, the paragraph goes below
    /// the band.
    pub open spec fn with_continuation_par(self, d: DeferredParChild) -> (
        DistModel,
        Result<(), StopModel>,
    ) {
        match self.band {
            None => self.with_uniform_par(d),
            Some(band) => {
                let line_height = band.pitch.minus(band.leading);
                let asked = self.asked_beside(d, band);
                let band = band.after_gap();
                match asked {
                    (state, Err(stop)) => (state, Err(stop)),
                    (state, Ok(frames)) => if pitch_varies(frames, line_height)
                        || state.rest_straddles(d, band, frames) {
                        (DistModel { band: None, ..state }).with_gap(
                            band.remaining,
                        ).with_uniform_par(d)
                    } else {
                        state.with_band_lines(d, frames, band, line_height)
                    },
                }
            },
        }
    }
}

/// Whether any of the frames is not about as high as a line.
fn some_pitch_varies(frames: &Vec<Frame>, line_height: Abs) -> (result: bool)
    ensures
        result == pitch_varies(frames@, line_height),
{
    let mut i: usize = 0;
    while i < frames.len()
        invariant
            i <= frames@.len(),
            forall|j: int|
                0 <= j < i ==> -PITCH_TOLERANCE <= (#[trigger] frames@[j]).height().minus(
                    line_height,
                ).0 <= PITCH_TOLERANCE,
        decreases frames@.len() - i,
    {
        let difference = frames[i].height() - line_height;
        if difference.0 < -PITCH_TOLERANCE || difference.0 > PITCH_TOLERANCE {
            return true;
        }
        i += 1;
    }
    false
}

/// The index of the first of the lines that has to go to the next region where the given height
/// remains, or their number.
fn first_line_moved(
    regions: &Regions,
    y: Abs,
    lines: &Vec<LineChild>,
    leading: Abs,
) -> (result: usize)
    ensures
        result <= lines@.len(),
        result == regions@.with_y(y).first_moved(lines@, 0, leading),
{
    let mut left = regions.duplicate();
    left.size.y = y;
    let mut i: usize = 0;
    assert(left@ == regions@.with_y(y));
    while i < lines.len()
        invariant
            i <= lines@.len(),
            regions@.with_y(y).first_moved(lines@, 0, leading) == left@.first_moved(
                lines@,
                i as int,
                leading,
            ),
        decreases lines@.len() - i,
    {
        let ghost before = left@;
        if i > 0 {
            left.size.y = left.size.y - leading;
            assert(left@ == before.with_y(before.size.y.minus(leading)));
        }
        let ghost led = left@;
        let height = lines[i].frame.height();
        if left.must_move_on(height, lines[i].need) {
            return i;
        }
        left.size.y = left.size.y - height;
        assert(left@ == led.with_y(led.size.y.minus(height)));
        i += 1;
    }
    i
}

/// Whether a line that is narrowed beside a band would go to the next region where the given
/// height remains.
fn some_narrow_line_moves(
    regions: &Regions,
    y: Abs,
    lines: &Vec<LineChild>,
    leading: Abs,
    profile: &WrapProfile,
) -> (result: bool)
    ensures
        result == regions@.with_y(y).narrow_line_moves(lines@, leading, profile@),
{
    let first = first_line_moved(regions, y, lines, leading);
    let mut k = first;
    while k < lines.len()
        invariant
            first <= k <= lines@.len(),
            forall|j: usize| first <= j < k ==> !(#[trigger] profile@.narrows(j)),
            first == regions@.with_y(y).first_moved(lines@, 0, leading),
        decreases lines@.len() - k,
    {
        if profile.narrows(k) {
            return true;
        }
        k += 1;
    }
    false
}

/// The band that narrows the lines of a paragraph beside a float.
fn exclusion_band(d: &DeferredParChild, setup: &WrapSetup) -> (result: ExclusionBand)
    ensures
        result == d.band(*setup),
{
    let pitch = setup.line_height + d.elem.leading;
    let (bottom, width) = match setup.cap {
        Some((n, cap)) => {
            let target = pitch.times(gap_count(n)) + cap;
            let scale = scale_to(target, setup.float.height());
            (pitch.times(n), setup.float.width().scaled(scale.num, scale.den))
        },
        None => (setup.float.height() + d.clearance, setup.float.width()),
    };
    ExclusionBand { y0: Abs::zero(), y1: bottom, inset: width + d.clearance, side: setup.side }
}

/// The plan for a paragraph that was broken into lines beside a float.
pub fn wrap_plan(
    d: &DeferredParChild,
    setup: &WrapSetup,
    lines: &Vec<LineChild>,
    follows: bool,
) -> (result: WrapPlan)
    ensures
        result == d.plan(*setup, line_frames(lines@), follows),
{
    let leading = d.elem.leading;
    let pitch = setup.line_height + leading;
    let height = height_of_lines(lines, leading);
    match setup.cap {
        Some((n, cap)) => {
            let active = follows && band_should_continue(n, pitch, height, true);
            // The cap stays full where the band continues; else it is clamped to the laid-out
            // line count so a short opener never reserves phantom lines.
            let count = if active || lines.len() >= n {
                n
            } else if lines.len() == 0 {
                1
            } else {
                lines.len()
            };
            let baseline = if lines.len() > 0 {
                lines[0].frame.baseline_or_height()
            } else {
                Abs::zero()
            };
            let target = pitch.times(gap_count(count)) + cap;
            let scaled = setup.float.scaled_by(scale_to(target, setup.float.height()));
            let band = if active {
                // Anchoring the band's bottom to the cap's baseline puts the boundary mid-line
                // and narrows exactly the lines level with the cap.
                let cap_baseline = baseline + pitch.times(gap_count(count));
                Some(
                    ActiveBand {
                        remaining: (cap_baseline - height).max(Abs::zero()),
                        inset: scaled.width() + d.clearance,
                        side: setup.side,
                        pitch,
                        leading,
                        gap: leading,
                    },
                )
            } else {
                None
            };
            WrapPlan {
                bottom: pitch.times(count),
                cap: Some((scaled, baseline - cap)),
                band,
            }
        },
        None => {
            let bottom = setup.float.height() + d.clearance;
            let active = follows && (bottom - height).0 >= setup.line_height.half_up().0;
            let band = if active {
                Some(
                    ActiveBand {
                        remaining: (bottom - height).max(Abs::zero()),
                        inset: setup.float.width() + d.clearance,
                        side: setup.side,
                        pitch,
                        leading,
                        gap: d.elem.spacing,
                    },
                )
            } else {
                None
            };
            WrapPlan { bottom, cap: None, band }
        },
    }
}

impl<'b> Distributor<'b> {
    /// Breaks a deferred paragraph into lines.
    fn layout_par(
        &mut self,
        d: &DeferredParChild,
        base: Size,
        profile: Option<WrapProfile>,
    ) -> (result: Result<Vec<Frame>, Stop>)
        ensures
            (final(self)@, viewed(result)) == old(self)@.par_lines(
                *d,
                base,
                match profile {
                    Some(profile) => Some(profile@),
                    None => None,
                },
            ),
    {
        match self.composer.engine.ask_frames(
            Request::Par {
                elem: d.elem,
                locator: d.locator,
                base,
                expand: d.expand,
                situation: d.par_situation,
                profile,
            },
        ) {
            Ok(frames) => Ok(frames),
            Err(error) => Err(Stop::Error(error)),
        }
    }

    /// Measure the true line height by breaking the paragraph once at uniform full width and
    /// reading the first non-empty line's frame height.
    pub fn measure_line_height(&mut self, d: &DeferredParChild) -> (result: Result<Abs, Stop>)
        ensures
            (final(self)@, erred(result)) == old(self)@.line_height_of(*d),
    {
        let size = self.regions.size;
        let probe = match self.layout_par(d, size, None) {
            Ok(probe) => probe,
            Err(stop) => return Err(stop),
        };
        // Take the first line that has any height so a leading tag or label line does not
        // collapse the pitch to zero.
        let mut i: usize = 0;
        assert(probe@.skip(0) =~= probe@);
        while i < probe.len()
            invariant
                i <= probe@.len(),
                first_positive_height(probe@, d.elem.text_size) == first_positive_height(
                    probe@.skip(i as int),
                    d.elem.text_size,
                ),
                (self@, Ok::<Seq<Frame>, StopModel>(probe@)) == old(self)@.par_lines(
                    *d,
                    old(self)@.regions.size,
                    None,
                ),
            decreases probe@.len() - i,
        {
            let height = probe[i].height();
            if height.0 > 0 {
                return Ok(height);
            }
            assert(probe@.skip(i as int).skip(1) =~= probe@.skip(i + 1));
            i += 1;
        }
        Ok(d.elem.text_size)
    }

    /// Looks up the cap height of the paragraph's text.
    fn measure_cap_height(&mut self, d: &DeferredParChild) -> (result: Result<Abs, Stop>)
        ensures
            (final(self)@, erred(result)) == old(self)@.cap_height_of(*d),
    {
        match self.composer.engine.ask_cap_heights(Request::CapHeights { elem: d.elem }) {
            Ok(fonts) => Ok(body_cap_height(d.elem.text_size, &fonts)),
            Err(error) => Err(Stop::Error(error)),
        }
    }

    /// Break a paragraph beside the immediately-preceding side-wrap float, and paginate its
    /// continuation lines when the region tail runs out.
    pub fn deferred_par(&mut self, d: &DeferredParChild) -> (result: Result<(), Stop>)
        requires
            old(self)@.composer.work.head_child() is Some,
        ensures
            (final(self)@, erred(result)) == old(self)@.with_deferred_par(*d),
    {
        // The float must have been stashed by the immediately-preceding `placed` call. If it is
        // absent, fall back to a normal full-width break.
        let (float, side) = match self.pending_wrap_float.take() {
            Some(pending) => pending,
            None => {
                return self.deferred_par_uniform(d);
            },
        };
        let leading = d.elem.leading;
        let dropcap = match d.dropcap {
            Some(n) => if n >= 1 {
                Some(n)
            } else {
                None
            },
            None => None,
        };

        // For a drop cap, the reserved vertical zone is exactly its number of line pitches, so
        // the true line pitch is measured up front.
        let (bottom, measured) = match dropcap {
            Some(n) => match self.measure_line_height(d) {
                Ok(line_height) => ((line_height + leading).times(n), Some(line_height)),
                Err(stop) => return Err(stop),
            },
            None => (float.height() + d.clearance, None),
        };

        // The float was laid out for the full height that the flow was collected with, and the
        // entire zone beside it must complete in this region's tail. Else the float keeps its
        // own height and the paragraph goes below it.
        if self.regions.full != d.base.y || !self.regions.size.y.fits(bottom) {
            return self.wrap_fallback_reserve(d, float, side);
        }
        let cap = match dropcap {
            Some(n) => match self.measure_cap_height(d) {
                Ok(cap) => Some((n, cap)),
                Err(stop) => return Err(stop),
            },
            None => None,
        };
        let line_height = match measured {
            Some(line_height) => line_height,
            None => match self.measure_line_height(d) {
                Ok(line_height) => line_height,
                Err(stop) => return Err(stop),
            },
        };
        self.wrapped_par(d, WrapSetup { float, side, cap, line_height })
    }

    /// Breaks a paragraph beside a float that fits.
    pub fn wrapped_par(&mut self, d: &DeferredParChild, setup: WrapSetup) -> (result: Result<
        (),
        Stop,
    >)
        requires
            old(self)@.composer.work.head_child() is Some,
        ensures
            (final(self)@, erred(result)) == old(self)@.with_wrapped_par(*d, setup),
    {
        let leading = d.elem.leading;
        let spacing = d.elem.spacing;
        let band = exclusion_band(d, &setup);
        let profile = WrapProfile::new(
            one_band(band),
            self.regions.size.x,
            setup.line_height,
            leading,
        );
        let frames = match self.layout_par(d, d.base, Some(profile.clone())) {
            Ok(frames) => frames,
            Err(stop) => return Err(stop),
        };

        // Which lines straddle the band is derived from a single probed pitch. If any line's true
        // height diverges, the band assignment is unreliable: discard the wrapped frames.
        if some_pitch_varies(&frames, setup.line_height) {
            return self.wrap_fallback_reserve(d, setup.float, setup.side);
        }
        let ghost answered = self@;
        let lines = build_line_children(&frames, leading, d.elem.style);
        assert(line_frames(lines@) =~= frames@);

        // That the band fits does not account for the spacing before the paragraph, for a line that
        // starts beside the float and ends below it, or for lines that are grouped. If a narrowed
        // line would go to the next region, it would stand there with no float beside it: discard
        // the wrapped frames here, too.
        let y = self.height_after_rel(Rel::absolute(spacing), 4);
        if some_narrow_line_moves(&self.regions, y, &lines, leading, &profile) {
            return self.wrap_fallback_reserve(d, setup.float, setup.side);
        }

        // Keep the cap at its full lines and continue the band into the following paragraph only
        // when the float outlives the opener and a continuation actually follows.
        let follows = match self.composer.work.peek_next() {
            Some(Child::Deferred(next)) => next.continuation,
            _ => false,
        };
        let plan = wrap_plan(d, &setup, &lines, follows);

        // Redraw a drop cap on the trailing float that `placed` left at the top of the items.
        if let Some((scaled, y_delta)) = plan.cap {
            let len = self.items.len();
            if len > 0 {
                if let Item::WrapFloat(_, align, _) = self.items[len - 1] {
                    self.items.set(len - 1, Item::WrapFloat(scaled, align, y_delta));
                }
            }
        }
        assert(self@ =~= answered.with_cap(plan.cap));
        self.flush_tags();
        self.rel(Rel::absolute(spacing), 4);
        // When continuing the band, the trailing paragraph spacing is suppressed so the
        // continuation owns the single inter-paragraph gap inside the band.
        match self.emit_wrapped_lines(&lines, leading, spacing, true, plan.band.is_none()) {
            Ok(()) => {},
            Err(stop) => return Err(stop),
        }
        if plan.band.is_some() {
            // The opener completed in this region and a continuation follows: keep the band live
            // and skip the compensating gap.
            self.active_band = plan.band;
            return Ok(());
        }
        // The lines plus the trailing spacing have advanced the offset. If the float is taller
        // than that, emit a compensating gap so the total advance is exactly the bottom of the
        // band, letting the next child clear the float without overlap.
        let advanced = height_of_lines(&lines, leading) + spacing;
        if advanced.0 < plan.bottom.0 {
            self.gap(plan.bottom - advanced);
        }
        Ok(())
    }

    /// Wrap a continuation paragraph beside the lower part of a still-live band. The float is
    /// already painted at the opener: this only narrows the lines level with the band's residual
    /// and updates the band. A spill clears the band.
    pub fn continuation_par(&mut self, d: &DeferredParChild) -> (result: Result<(), Stop>)
        requires
            old(self)@.composer.work.head_child() is Some,
        ensures
            (final(self)@, erred(result)) == old(self)@.with_continuation_par(*d),
    {
        let mut band = match self.active_band {
            Some(band) => band,
            None => {
                return self.deferred_par_uniform(d);
            },
        };
        let spacing = d.elem.spacing;
        let full_width = self.regions.size.x;
        let leading = band.leading;

        // Own one inter-paragraph gap. It consumes band height like a line would, keeping the
        // band aligned to the float.
        self.flush_tags();
        self.rel(Rel::absolute(band.gap), 4);
        band.remaining = (band.remaining - band.gap).max(Abs::zero());

        // Reuse the run's pitch (uniform across the run).
        let line_height = band.pitch - leading;
        let profile = WrapProfile::new(
            one_band(
                ExclusionBand {
                    y0: Abs::zero(),
                    y1: band.remaining,
                    inset: band.inset,
                    side: band.side,
                },
            ),
            full_width,
            line_height,
            leading,
        );
        let frames = match self.layout_par(d, d.base, Some(profile.clone())) {
            Ok(frames) => frames,
            Err(stop) => return Err(stop),
        };

        // If a line's true height diverges from the probed pitch, clear the band, reserve the
        // residual float height, and break this paragraph full-width.
        if some_pitch_varies(&frames, line_height) {
            self.active_band = None;
            self.gap(band.remaining);
            return self.deferred_par_uniform(d);
        }
        let mut frames = frames;
        mark_par_end(&mut frames);
        let lines = build_line_children(&frames, leading, d.elem.style);
        assert(line_frames(lines@) =~= frames@);

        // If a narrowed line would go to the next region, with no float beside it there, the
        // paragraph goes below the band as well.
        let y = self.regions.size.y;
        if some_narrow_line_moves(&self.regions, y, &lines, leading, &profile) {
            self.active_band = None;
            self.gap(band.remaining);
            return self.deferred_par_uniform(d);
        }

        // A spill carries the rest, which is full-width, and clears the band: it cannot continue
        // into the spill region, as the float is painted here.
        match self.emit_wrapped_lines(&lines, leading, spacing, true, true) {
            Ok(()) => {},
            Err(stop) => {
                self.active_band = None;
                return Err(stop);
            },
        }

        // Consume the band; if too little remains for another line beside it, end the run so the
        // next paragraph flows full-width.
        band.remaining = (band.remaining - height_of_lines(&lines, leading)).max(Abs::zero());
        if band_is_exhausted(band.remaining, line_height) {
            self.active_band = None;
        } else {
            self.active_band = Some(band);
        }
        Ok(())
    }

    /// Fallback when a deferred paragraph has no usable pending wrap float. Breaks the paragraph
    /// full width and paginates it.
    pub fn deferred_par_uniform(&mut self, d: &DeferredParChild) -> (result: Result<(), Stop>)
        requires
            old(self)@.composer.work.head_child() is Some,
        ensures
            (final(self)@, erred(result)) == old(self)@.with_uniform_par(*d),
    {
        let mut frames = match self.layout_par(d, d.base, None) {
            Ok(frames) => frames,
            Err(stop) => return Err(stop),
        };
        mark_par_end(&mut frames);
        let lines = build_line_children(&frames, d.elem.leading, d.elem.style);
        self.flush_tags();
        self.rel(Rel::absolute(d.elem.spacing), 4);
        self.emit_wrapped_lines(&lines, d.elem.leading, d.elem.spacing, true, true)
    }

    /// Convert the trailing zero-advance float into a height-reserving frame so following text
    /// flows below the float, then break the paragraph full-width and paginate it.
    pub fn wrap_fallback_reserve(
        &mut self,
        d: &DeferredParChild,
        frame: Frame,
        side: FixedAlignment,
    ) -> (result: Result<(), Stop>)
        requires
            old(self)@.composer.work.head_child() is Some,
        ensures
            (final(self)@, erred(result)) == old(self)@.with_wrap_fallback(*d, frame, side),
    {
        let len = self.items.len();
        if len > 0 && matches!(self.items[len - 1], Item::WrapFloat(..)) {
            self.items.pop();
            self.regions.size.y = self.regions.size.y - frame.height();
            self.items.push(Item::Frame(frame, Axes { x: side, y: FixedAlignment::Start }));
        }
        assert(self@ =~= old(self)@.with_float_reserved(frame, side));
        self.deferred_par_uniform(d)
    }

    /// Emit pre-broken lines through the same fit checks as a line child. When one has to go to
    /// the next region, the remaining lines (plus the trailing spacing) are carried there and the
    /// region is finished. On completion, emits the trailing paragraph spacing. Inserts
    /// inter-line leading between emitted lines.
    ///
    /// `advance_on_spill` must be `true` when called while a deferred paragraph is the work head
    /// (so it is consumed and not processed again), and `false` when draining carried lines.
    ///
    /// `emit_trailing` is `true` everywhere except for an opener whose band continues, which
    /// suppresses its trailing paragraph spacing.
    pub fn emit_wrapped_lines(
        &mut self,
        lines: &Vec<LineChild>,
        leading: Abs,
        spacing: Abs,
        advance_on_spill: bool,
        emit_trailing: bool,
    ) -> (result: Result<(), Stop>)
        requires
            advance_on_spill ==> old(self)@.composer.work.head_child() is Some,
        ensures
            (final(self)@, erred(result)) == old(self)@.with_lines(
                lines@,
                0,
                leading,
                spacing,
                advance_on_spill,
                emit_trailing,
            ),
    {
        let mut i: usize = 0;
        while i < lines.len()
            invariant
                i <= lines@.len(),
                advance_on_spill ==> self@.composer.work.head_child() is Some,
                old(self)@.with_lines(lines@, 0, leading, spacing, advance_on_spill, emit_trailing)
                    == self@.with_lines(
                    lines@,
                    i as int,
                    leading,
                    spacing,
                    advance_on_spill,
                    emit_trailing,
                ),
            decreases lines@.len() - i,
        {
            if i > 0 {
                self.rel(Rel::absolute(leading), 5);
            }
            let line = lines[i];
            if self.must_move(&line) {
                // Carry this line and the rest, full-width, to the next region.
                let rest = copy_from(lines, i);
                self.composer.work.wrap_spill = Some(WrapSpill { lines: rest, leading, spacing });
                // Consume the deferred work head so the next region drains the carried lines
                // instead of processing the paragraph from scratch.
                if advance_on_spill {
                    self.composer.work.advance();
                }
                return Err(Stop::Finish(false));
            }
            match self.frame(line.frame, line.align, false, false) {
                Ok(()) => {},
                Err(stop) => return Err(stop),
            }
            i += 1;
        }
        if emit_trailing {
            self.rel(Rel::absolute(spacing), 4);
        }
        Ok(())
    }

    /// Drain carried full-width lines onto a fresh region.
    pub fn wrap_spill(&mut self, spill: WrapSpill) -> (result: Result<(), Stop>)
        ensures
            (final(self)@, erred(result)) == old(self)@.with_wrap_spill(spill@),
    {
        if self.regions.is_full() {
            self.composer.work.wrap_spill = Some(spill);
            return Err(Stop::Finish(false));
        }
        self.emit_wrapped_lines(&spill.lines, spill.leading, spill.spacing, false, true)
    }
}

} // verus!
