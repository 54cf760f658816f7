//! Laws of paragraphs beside floats.
use vstd::prelude::*;

use crate::child::{Child, DeferredParChild, LineChild, WrapSpillModel};
use crate::distribute::wrapped::{
    cap_height, first_positive_height, lines_height, pitch_varies, WrapPlan, WrapSetup,
};
use crate::distribute::{ActiveBand, DistModel};
use crate::engine::{AnswerModel, ErrorModel, RequestModel, StopModel};
use crate::frame::{par_end_marked, Frame, Scale};
use crate::geom::{Abs, Axes, FixedAlignment, Ratio, Rel};
use crate::item::Item;
use crate::laws::dialogue::{comes_next, is_open};
use crate::laws::wrap::law_band_narrows_exactly_level_lines;
use crate::lines::line_children;
use crate::region::RegionsModel;
use crate::work::{ComposerModel, WorkModel};
use crate::wrap::{ExclusionBand, ProfileModel};

verus! {

/// Whether a length is the height of the first line that has any, or else the given size.
pub open spec fn first_height(height: Abs, lines: Seq<Frame>, size: Abs) -> bool {
    ||| exists|i: int|
        {
            &&& 0 <= i < lines.len()
            &&& (#[trigger] lines[i]).size.y == height
            &&& height.0 > 0
            &&& forall|k: int| 0 <= k < i ==> (#[trigger] lines[k]).size.y.0 <= 0
        }
    ||| height == size && forall|k: int|
        0 <= k < lines.len() ==> (#[trigger] lines[k]).size.y.0 <= 0
}

/// The height of a line is that of the first line that has any, or else the size of the text.
pub proof fn law_line_height_is_that_of_first_line(lines: Seq<Frame>, size: Abs)
    ensures
        first_height(first_positive_height(lines, size), lines, size),
    decreases lines.len(),
{
    if lines.len() > 0 && lines[0].size.y.0 <= 0 {
        let rest = lines.skip(1);
        let height = first_positive_height(rest, size);
        law_line_height_is_that_of_first_line(rest, size);
        assert forall|k: int| 0 < k < lines.len() implies #[trigger] lines[k] == rest[k - 1] by {}
        if exists|i: int|
            {
                &&& 0 <= i < rest.len()
                &&& (#[trigger] rest[i]).size.y == height
                &&& height.0 > 0
                &&& forall|k: int| 0 <= k < i ==> (#[trigger] rest[k]).size.y.0 <= 0
            } {
            let i = choose|i: int|
                {
                    &&& 0 <= i < rest.len()
                    &&& (#[trigger] rest[i]).size.y == height
                    &&& height.0 > 0
                    &&& forall|k: int| 0 <= k < i ==> (#[trigger] rest[k]).size.y.0 <= 0
                };
            assert(lines[i + 1] == rest[i]);
            assert forall|k: int| 0 <= k < i + 1 implies (#[trigger] lines[k]).size.y.0 <= 0 by {
                if k > 0 {
                    assert(rest[k - 1].size.y.0 <= 0);
                }
            }
        } else {
            assert forall|k: int| 0 <= k < lines.len() implies (
            #[trigger] lines[k]).size.y.0 <= 0 by {
                if k > 0 {
                    assert(rest[k - 1].size.y.0 <= 0);
                }
            }
        }
    } else if lines.len() > 0 {
        assert(lines[0].size.y == first_positive_height(lines, size));
    }
}

/// The cap height is that of the first font that is available, and seven tenths of the text size
/// where none is.
pub proof fn law_cap_height_is_that_of_first_font(
    size: Abs,
    fonts: Seq<Option<Ratio>>,
    i: int,
)
    requires
        0 <= i <= fonts.len(),
        forall|k: int| 0 <= k < i ==> (#[trigger] fonts[k]) is None,
        i < fonts.len() ==> fonts[i] is Some,
    ensures
        cap_height(size, fonts) == if i < fonts.len() {
            fonts[i]->Some_0.of(size)
        } else {
            Ratio(700_000).of(size)
        },
    decreases fonts.len(),
{
    if i > 0 {
        let rest = fonts.skip(1);
        assert(fonts[0] is None);
        assert forall|k: int| 0 <= k < i - 1 implies (#[trigger] rest[k]) is None by {
            assert(fonts[k + 1] is None);
        }
        law_cap_height_is_that_of_first_font(size, rest, i - 1);
    }
}

/// Lines count as equally high if none of them differs from a line by more than a hundredth of a
/// point.
pub proof fn law_lines_may_differ_by_a_hundredth(frames: Seq<Frame>, line_height: Abs)
    requires
        0 <= line_height.0,
        line_height.is_finite(),
        forall|k: int|
            0 <= k < frames.len() ==> 0 <= (#[trigger] frames[k]).size.y.0
                && frames[k].size.y.is_finite(),
    ensures
        pitch_varies(frames, line_height) <==> exists|k: int|
            0 <= k < frames.len() && ((#[trigger] frames[k]).size.y.0 > line_height.0 + 10_000
                || frames[k].size.y.0 < line_height.0 - 10_000),
{
    if pitch_varies(frames, line_height) {
        let i = choose|i: int|
            0 <= i < frames.len() && !(-10_000 <= (#[trigger] frames[i]).height().minus(
                line_height,
            ).0 <= 10_000);
        assert(frames[i].size.y.is_finite());
    }
    if exists|k: int|
        0 <= k < frames.len() && ((#[trigger] frames[k]).size.y.0 > line_height.0 + 10_000
            || frames[k].size.y.0 < line_height.0 - 10_000) {
        let k = choose|k: int|
            0 <= k < frames.len() && ((#[trigger] frames[k]).size.y.0 > line_height.0 + 10_000
                || frames[k].size.y.0 < line_height.0 - 10_000);
        assert(frames[k].size.y.is_finite());
        assert(!(-10_000 <= frames[k].height().minus(line_height).0 <= 10_000));
    }
}

/// The request for the lines of a deferred paragraph, which is the same paragraph at the same place
/// whatever the widths.
pub open spec fn lines_wanted(
    d: DeferredParChild,
    base: Axes<Abs>,
    profile: Option<ProfileModel>,
) -> RequestModel {
    RequestModel::Par {
        elem: d.elem,
        locator: d.locator,
        base,
        expand: d.expand,
        situation: d.par_situation,
        profile,
    }
}

/// A request that has not been answered, as an outcome.
pub open spec fn unanswered(request: RequestModel) -> Result<(), StopModel> {
    Err(StopModel::Error(ErrorModel::Unanswered(request)))
}

/// The widths beside a float that starts with the paragraph: there is one band, on the float's own
/// side.
pub open spec fn beside(
    bottom: Abs,
    inset: Abs,
    side: FixedAlignment,
    width: Abs,
    line_height: Abs,
    leading: Abs,
) -> ProfileModel {
    ProfileModel {
        bands: seq![ExclusionBand { y0: Abs(0), y1: bottom, inset, side }],
        width,
        line_height,
        leading,
    }
}

/// A paragraph that waits for a float is broken beside it: first once at full width to measure its
/// lines, then with one band on the side that the float stands on, as wide and as high as the float
/// with its clearance.
pub proof fn law_paragraph_is_broken_beside_its_float(
    state: DistModel,
    d: DeferredParChild,
    float: Frame,
    side: FixedAlignment,
    probe: Seq<Frame>,
)
    requires
        state.pending == Some((float, side)),
        state.band is None,
        d.dropcap is None || d.dropcap == Some(0usize),
        state.regions.full == d.base.y,
        state.regions.size.y.fits(float.size.y.plus(d.clearance)),
    ensures
        is_open(state.composer.engine) ==> state.with_child(Child::Deferred(d)).1 == unanswered(
            lines_wanted(d, state.regions.size, None),
        ),
        comes_next(state.composer.engine, seq![AnswerModel::Frames(probe)])
            && state.composer.engine.next + 1 == state.composer.engine.answers.len() ==> exists|
            line_height: Abs,
        |
            first_height(line_height, probe, d.elem.text_size) && state.with_child(
                Child::Deferred(d),
            ).1 == unanswered(
                lines_wanted(
                    d,
                    d.base,
                    Some(
                        #[trigger] beside(
                            float.size.y.plus(d.clearance),
                            float.size.x.plus(d.clearance),
                            side,
                            state.regions.size.x,
                            line_height,
                            d.elem.leading,
                        ),
                    ),
                ),
            ),
{
    let answers = seq![AnswerModel::Frames(probe)];
    if comes_next(state.composer.engine, answers) && state.composer.engine.next + 1
        == state.composer.engine.answers.len() {
        assert(answers[0] == state.composer.engine.answers[state.composer.engine.next as int]);
        let line_height = first_positive_height(probe, d.elem.text_size);
        law_line_height_is_that_of_first_line(probe, d.elem.text_size);
        let profile = beside(
            float.size.y.plus(d.clearance),
            float.size.x.plus(d.clearance),
            side,
            state.regions.size.x,
            line_height,
            d.elem.leading,
        );
        assert(state.with_child(Child::Deferred(d)).1 == unanswered(
            lines_wanted(d, d.base, Some(profile)),
        ));
    }
}

/// A paragraph beside a drop cap is broken with one band on the side that the cap stands on, as
/// high as the lines that the cap spans with their leading, and as wide as the cap with its
/// clearance once it is scaled to reach from the top of the first line's capitals to the baseline
/// of the last line that it spans.
pub proof fn law_paragraph_is_broken_beside_its_cap(
    state: DistModel,
    d: DeferredParChild,
    float: Frame,
    side: FixedAlignment,
    n: usize,
    probe: Seq<Frame>,
    fonts: Seq<Option<Ratio>>,
    line_height: Abs,
)
    requires
        state.pending == Some((float, side)),
        state.band is None,
        d.dropcap == Some(n),
        n >= 1,
        state.regions.full == d.base.y,
        first_positive_height(probe, d.elem.text_size) == line_height,
        state.regions.size.y.fits(line_height.plus(d.elem.leading).times(n)),
    ensures
        first_height(line_height, probe, d.elem.text_size),
        is_open(state.composer.engine) ==> state.with_child(Child::Deferred(d)).1 == unanswered(
            lines_wanted(d, state.regions.size, None),
        ),
        comes_next(state.composer.engine, seq![AnswerModel::Frames(probe)])
            && state.composer.engine.next + 1 == state.composer.engine.answers.len()
            ==> state.with_child(Child::Deferred(d)).1 == unanswered(
            RequestModel::CapHeights { elem: d.elem },
        ),
        comes_next(
            state.composer.engine,
            seq![AnswerModel::Frames(probe), AnswerModel::CapHeights(fonts)],
        ) && state.composer.engine.next + 2 == state.composer.engine.answers.len() ==> {
            let pitch = line_height.plus(d.elem.leading);
            let target = pitch.times((n - 1) as usize).plus(cap_height(d.elem.text_size, fonts));
            let width = if float.size.y.0 > 0 {
                float.size.x.scaled(target, float.size.y)
            } else {
                float.size.x.scaled(Abs(1), Abs(1))
            };
            state.with_child(Child::Deferred(d)).1 == unanswered(
                lines_wanted(
                    d,
                    d.base,
                    Some(
                        beside(
                            pitch.times(n),
                            width.plus(d.clearance),
                            side,
                            state.regions.size.x,
                            line_height,
                            d.elem.leading,
                        ),
                    ),
                ),
            )
        },
{
    let next = state.composer.engine.next as int;
    law_line_height_is_that_of_first_line(probe, d.elem.text_size);
    let one = seq![AnswerModel::Frames(probe)];
    if comes_next(state.composer.engine, one) {
        assert(one[0] == state.composer.engine.answers[next]);
    }
    let two = seq![AnswerModel::Frames(probe), AnswerModel::CapHeights(fonts)];
    if comes_next(state.composer.engine, two) {
        assert(two[0] == state.composer.engine.answers[next]);
        assert(two[1] == state.composer.engine.answers[next + 1]);
    }
}

/// No line beside a float meets the float. Beside one on the left, the lines that are level with it
/// start where it ends with its clearance, and reach up to the edge of the column. Beside one on
/// the right, they start at the edge of the column, and end where it starts but for its clearance.
/// All other lines have the full width.
pub proof fn law_lines_avoid_their_float(
    float: Frame,
    side: FixedAlignment,
    bottom: Abs,
    clearance: Abs,
    width: Abs,
    line_height: Abs,
    leading: Abs,
    k: usize,
)
    requires
        side is Start || side is End,
        0 < float.size.x.0,
        0 <= clearance.0,
        float.size.x.0 + clearance.0 < width.0,
        width.is_finite(),
        line_height.0 > 0,
        leading.0 >= 0,
        (line_height.0 + leading.0) * k + line_height.0 < i64::MAX,
    ensures
        ({
            let inset = float.size.x.plus(clearance);
            let (x, measure) = beside(bottom, inset, side, width, line_height, leading).at(k);
            let float_x = side.position(width.minus(float.size.x));
            let level = (line_height.0 + leading.0) * k < bottom.0;
            &&& level && side is Start ==> {
                &&& float_x.0 == 0
                &&& x.0 == float_x.0 + float.size.x.0 + clearance.0
                &&& x.0 + measure.0 == width.0
            }
            &&& level && side is End ==> {
                &&& float_x.0 + float.size.x.0 == width.0
                &&& x.0 == 0
                &&& x.0 + measure.0 == float_x.0 - clearance.0
            }
            &&& level ==> x.0 + measure.0 <= float_x.0 || float_x.0 + float.size.x.0 <= x.0
            &&& !level ==> x.0 == 0 && measure == width
        }),
{
    let band = ExclusionBand { y0: Abs(0), y1: bottom, inset: float.size.x.plus(clearance), side };
    law_band_narrows_exactly_level_lines(band, width, line_height, leading, k);
}

/// A float that does not fit with its band, or that was laid out for another height, takes up its
/// height on its side, at the start, and the paragraph is broken at full width below it.
pub proof fn law_paragraph_goes_below_a_float_that_does_not_fit(
    state: DistModel,
    d: DeferredParChild,
    float: Frame,
    side: FixedAlignment,
)
    requires
        state.pending == Some((float, side)),
        state.band is None,
        d.dropcap is None || d.dropcap == Some(0usize),
        state.regions.full != d.base.y || !state.regions.size.y.fits(
            float.size.y.plus(d.clearance),
        ),
        state.items.len() > 0,
        state.items.last() is WrapFloat,
        is_open(state.composer.engine),
    ensures
        ({
            let (after, result) = state.with_child(Child::Deferred(d));
            &&& result == unanswered(lines_wanted(d, d.base, None))
            &&& after.items == state.items.drop_last().push(
                Item::Frame(float, Axes { x: side, y: FixedAlignment::Start }),
            )
            &&& after.regions.size.y == state.regions.size.y.minus(float.size.y)
            &&& after.pending is None
        }),
{
}

/// A deferred paragraph that no float waits for is broken at full width.
pub proof fn law_paragraph_without_float_is_broken_at_full_width(
    state: DistModel,
    d: DeferredParChild,
)
    requires
        state.pending is None,
        state.band is None,
        is_open(state.composer.engine),
    ensures
        state.with_child(Child::Deferred(d)) == (
            state,
            unanswered(lines_wanted(d, d.base, None)),
        ),
{
    assert(state.with_child(Child::Deferred(d)).0 =~= state);
}

/// A continuation paragraph is broken beside what is left of the band below the gap before it, on
/// the same side and as wide as before.
pub proof fn law_continuation_is_broken_beside_the_rest(
    state: DistModel,
    d: DeferredParChild,
    band: ActiveBand,
)
    requires
        state.band == Some(band),
        d.continuation,
        is_open(state.composer.engine),
    ensures
        ({
            let left = band.remaining.minus(band.gap);
            state.with_child(Child::Deferred(d)).1 == unanswered(
                lines_wanted(
                    d,
                    d.base,
                    Some(
                        beside(
                            if left.0 > 0 {
                                left
                            } else {
                                Abs(0)
                            },
                            band.inset,
                            band.side,
                            state.regions.size.x,
                            band.pitch.minus(band.leading),
                            band.leading,
                        ),
                    ),
                ),
            )
        }),
{
}

/// A continuation paragraph uses up the gap before it and its own height of the band. What is left
/// of the band lives on if it is more than half a line, unchanged otherwise.
pub proof fn law_continuation_uses_up_the_band(
    state: DistModel,
    d: DeferredParChild,
    band: ActiveBand,
    frames: Seq<Frame>,
)
    requires
        state.band == Some(band),
        d.continuation,
        state.asked_beside(d, band).1 == Ok::<Seq<Frame>, StopModel>(frames),
        !pitch_varies(frames, band.pitch.minus(band.leading)),
        !state.asked_beside(d, band).0.rest_straddles(d, band.after_gap(), frames),
        state.with_child(Child::Deferred(d)).1 is Ok,
    ensures
        ({
            let left = band.remaining.minus(band.gap).max(Abs(0)).minus(
                lines_height(par_end_marked(frames), band.leading),
            ).max(Abs(0));
            let half = band.pitch.minus(band.leading).half();
            state.with_child(Child::Deferred(d)).0.band == if left.0 <= half.0 {
                None
            } else {
                Some(
                    ActiveBand {
                        remaining: left,
                        inset: band.inset,
                        side: band.side,
                        pitch: band.pitch,
                        leading: band.leading,
                        gap: band.gap,
                    },
                )
            }
        }),
{
}

/// A continuation paragraph of which the lines are uneven or would not stay with the float goes
/// below the band: what is left of it is reserved, and the paragraph is broken at full width.
pub proof fn law_continuation_may_go_below_the_band(
    state: DistModel,
    d: DeferredParChild,
    band: ActiveBand,
    frames: Seq<Frame>,
)
    requires
        state.band == Some(band),
        d.continuation,
        state.asked_beside(d, band).1 == Ok::<Seq<Frame>, StopModel>(frames),
        pitch_varies(frames, band.pitch.minus(band.leading)) || state.asked_beside(
            d,
            band,
        ).0.rest_straddles(d, band.after_gap(), frames),
        is_open(state.asked_beside(d, band).0.composer.engine),
    ensures
        ({
            let asked = state.asked_beside(d, band).0;
            let left = band.remaining.minus(band.gap).max(Abs(0));
            let (after, result) = state.with_child(Child::Deferred(d));
            &&& result == unanswered(lines_wanted(d, d.base, None))
            &&& after.band is None
            &&& after.items == asked.items.push(Item::Abs(left, 0))
            &&& after.regions.size.y == asked.regions.size.y.minus(left)
        }),
{
}

/// A float that is not a drop cap reserves its height and clearance. Its band continues into the
/// next paragraph if that is to continue it and at least half a line of the band is left: what is
/// left of it, as wide as the float with its clearance, on the float's side. The paragraphs beside
/// it are set off by their spacing.
pub proof fn law_float_reserves_its_height(
    d: DeferredParChild,
    setup: WrapSetup,
    frames: Seq<Frame>,
    follows: bool,
)
    requires
        setup.cap is None,
    ensures
        ({
            let bottom = setup.float.size.y.plus(d.clearance);
            let left = bottom.minus(lines_height(frames, d.elem.leading));
            let goes_on = follows && left.0 >= setup.line_height.half_up().0;
            d.plan(setup, frames, follows) == WrapPlan {
                bottom,
                cap: None,
                band: if goes_on {
                    Some(
                        ActiveBand {
                            remaining: if left.0 > 0 {
                                left
                            } else {
                                Abs(0)
                            },
                            inset: setup.float.size.x.plus(d.clearance),
                            side: setup.side,
                            pitch: setup.line_height.plus(d.elem.leading),
                            leading: d.elem.leading,
                            gap: d.elem.spacing,
                        },
                    )
                } else {
                    None
                },
            }
        }),
{
}

/// A drop cap spans all its lines where its band continues, else no more than the paragraph has,
/// but at least one. It is scaled by one factor in both directions. Its band continues into the
/// next paragraph if that is to continue it and at least a line is left: down to the cap's
/// baseline, as wide as the scaled cap with its clearance, on the cap's side. The paragraphs beside
/// it are set off by their leading.
pub proof fn law_cap_spans_its_lines(
    d: DeferredParChild,
    setup: WrapSetup,
    frames: Seq<Frame>,
    n: usize,
    cap: Abs,
    follows: bool,
)
    requires
        setup.cap == Some((n, cap)),
        n >= 1,
        frames.len() <= usize::MAX,
        setup.float.size.y.0 > 0,
    ensures
        ({
            let pitch = setup.line_height.plus(d.elem.leading);
            let used = lines_height(frames, d.elem.leading);
            let goes_on = follows && pitch.times(n).minus(used).0 >= pitch.0;
            let span = if goes_on || frames.len() >= n {
                n
            } else if frames.len() >= 1 {
                frames.len() as usize
            } else {
                1
            };
            let target = pitch.times((span - 1) as usize).plus(cap);
            let baseline = if frames.len() > 0 {
                match frames[0].baseline {
                    Some(baseline) => baseline,
                    None => frames[0].size.y,
                }
            } else {
                Abs(0)
            };
            let scaled = Frame {
                size: Axes {
                    x: setup.float.size.x.scaled(target, setup.float.size.y),
                    y: setup.float.size.y.scaled(target, setup.float.size.y),
                },
                scale: Some(Scale { num: target, den: setup.float.size.y }),
                ..setup.float
            };
            let left = baseline.plus(pitch.times((span - 1) as usize)).minus(used);
            d.plan(setup, frames, follows) == WrapPlan {
                bottom: pitch.times(span),
                cap: Some((scaled, baseline.minus(cap))),
                band: if goes_on {
                    Some(
                        ActiveBand {
                            remaining: if left.0 > 0 {
                                left
                            } else {
                                Abs(0)
                            },
                            inset: scaled.size.x.plus(d.clearance),
                            side: setup.side,
                            pitch,
                            leading: d.elem.leading,
                            gap: d.elem.leading,
                        },
                    )
                } else {
                    None
                },
            }
        }),
{
}

/// A band continues only into a paragraph that comes right next and is to continue it.
pub proof fn law_continuation_must_come_next(state: DistModel)
    ensures
        ({
            let work = state.composer.work;
            state.continuation_follows() <==> work.head + 1 < work.children.len() && (
            work.children[work.head as int + 1] matches Child::Deferred(next) && next.continuation)
        }),
{
}

/// A drop cap is redrawn in place of the float that waits at the end of the items, on the same
/// side, and nothing else changes.
pub proof fn law_cap_is_redrawn_in_place(
    state: DistModel,
    scaled: Frame,
    anchor: Abs,
    float: Frame,
    side: FixedAlignment,
    before: Abs,
)
    requires
        state.items.len() > 0,
        state.items.last() == Item::WrapFloat(float, side, before),
    ensures
        state.with_cap(None) == state,
        state.with_cap(Some((scaled, anchor))) == (DistModel {
            items: state.items.drop_last().push(Item::WrapFloat(scaled, side, anchor)),
            ..state
        }),
{
}

/// A paragraph that is broken as planned has its spacing before it, and after it unless its band
/// continues into the next paragraph, in which case the band lives on. Else it is followed by a gap
/// that makes it as high as the band, if that is higher.
pub proof fn law_planned_paragraph_is_spaced_and_cleared(
    state: DistModel,
    d: DeferredParChild,
    frames: Seq<Frame>,
    plan: WrapPlan,
)
    ensures
        ({
            let spaced = state.with_cap(plan.cap).with_tags_flushed().with_rel(
                Rel::absolute(d.elem.spacing),
                4,
            );
            let lines = line_children(frames, d.elem.leading, d.elem.style);
            let emitted = spaced.with_lines(
                lines,
                0,
                d.elem.leading,
                d.elem.spacing,
                true,
                plan.band is None,
            );
            let used = lines_height(frames, d.elem.leading).plus(d.elem.spacing);
            let (after, result) = state.with_planned_lines(d, frames, plan);
            &&& emitted.1 is Err ==> (after, result) == emitted
            &&& emitted.1 is Ok ==> {
                &&& result is Ok
                &&& plan.band is Some ==> after == (DistModel { band: plan.band, ..emitted.0 })
                &&& plan.band is None && used.0 >= plan.bottom.0 ==> after == emitted.0
                &&& plan.band is None && used.0 < plan.bottom.0 ==> after == (DistModel {
                    regions: RegionsModel {
                        size: Axes {
                            x: emitted.0.regions.size.x,
                            y: emitted.0.regions.size.y.minus(plan.bottom.minus(used)),
                        },
                        expand: emitted.0.regions.expand,
                        full: emitted.0.regions.full,
                        backlog: emitted.0.regions.backlog,
                        last: emitted.0.regions.last,
                    },
                    items: emitted.0.items.push(Item::Abs(plan.bottom.minus(used), 0)),
                    ..emitted.0
                })
            }
        }),
{
}

/// Lines are emitted one after the other, with leading before each but the first one. The first
/// line that has to go to the next region takes all that follow it along, with the leading and the
/// spacing that they need, and finishes the region; the paragraph is done then if it was still to
/// do. After the last line comes the spacing, if it is wanted.
pub proof fn law_lines_are_emitted_one_by_one(
    state: DistModel,
    lines: Seq<LineChild>,
    i: int,
    leading: Abs,
    spacing: Abs,
    advance: bool,
    trailing: bool,
)
    requires
        0 <= i <= lines.len(),
    ensures
        ({
            let led = if i == 0 {
                state
            } else {
                state.with_rel(Rel::absolute(leading), 5)
            };
            let outcome = state.with_lines(lines, i, leading, spacing, advance, trailing);
            if i == lines.len() {
                outcome == if trailing {
                    (state.with_rel(Rel::absolute(spacing), 4), Ok::<(), StopModel>(()))
                } else {
                    (state, Ok::<(), StopModel>(()))
                }
            } else if led.regions.must_move_on(lines[i].frame.size.y, lines[i].need) {
                outcome == (
                    DistModel {
                        composer: ComposerModel {
                            work: WorkModel {
                                head: if advance {
                                    led.composer.work.head + 1
                                } else {
                                    led.composer.work.head
                                },
                                wrap_spill: Some(
                                    WrapSpillModel { lines: lines.skip(i), leading, spacing },
                                ),
                                ..led.composer.work
                            },
                            engine: led.composer.engine,
                        },
                        ..led
                    },
                    Err::<(), StopModel>(StopModel::Finish(false)),
                )
            } else {
                let framed = led.with_frame(lines[i].frame, lines[i].align, false, false);
                &&& framed.1 is Err ==> outcome == framed
                &&& framed.1 is Ok ==> outcome == framed.0.with_lines(
                    lines,
                    i + 1,
                    leading,
                    spacing,
                    advance,
                    trailing,
                )
            }
        }),
{
}

/// Carried lines are drained at the start of a region that is not full, as they are, with the
/// leading and spacing that they came with.
pub proof fn law_carried_lines_are_drained(state: DistModel, spill: WrapSpillModel)
    requires
        state.composer.work.wrap_spill == Some(spill),
        !state.regions.is_full(),
    ensures
        state.with_par_resumed() == (DistModel {
            composer: ComposerModel {
                work: WorkModel { wrap_spill: None, ..state.composer.work },
                engine: state.composer.engine,
            },
            ..state
        }).with_lines(spill.lines, 0, spill.leading, spill.spacing, false, true),
{
}

/// Whether a line has to go on is foreseen from what the lines before it leave of the region.
pub proof fn law_moved_lines_are_foreseen(
    regions: RegionsModel,
    lines: Seq<LineChild>,
    i: int,
    leading: Abs,
)
    requires
        0 <= i <= lines.len(),
    ensures
        ({
            let y = if i == 0 {
                regions.size.y
            } else {
                regions.size.y.minus(leading)
            };
            let first = regions.first_moved(lines, i, leading);
            &&& i == lines.len() ==> first == i
            &&& i < lines.len() && regions.with_y(y).must_move_on(
                lines[i].frame.size.y,
                lines[i].need,
            ) ==> first == i
            &&& i < lines.len() && !regions.with_y(y).must_move_on(
                lines[i].frame.size.y,
                lines[i].need,
            ) ==> first == regions.with_y(y.minus(lines[i].frame.size.y)).first_moved(
                lines,
                i + 1,
                leading,
            )
        }),
{
    if i == 0 {
        assert(regions.with_y(regions.size.y) =~= regions);
    }
    let y = if i == 0 {
        regions.size.y
    } else {
        regions.size.y.minus(leading)
    };
    if i < lines.len() {
        let height = lines[i].frame.size.y;
        assert(regions.with_y(y).with_y(y.minus(height)) =~= regions.with_y(y.minus(height)));
    }
}

/// A float waits for one paragraph only: whatever comes of that, the float does not wait any more.
pub proof fn law_float_waits_for_one_paragraph(state: DistModel, d: DeferredParChild)
    requires
        state.band is None,
    ensures
        state.with_child(Child::Deferred(d)).0.pending is None,
{
    let start = DistModel { pending: None, ..state };
    lemma_pending_gone(start, d);
}

/// No way of laying out a paragraph makes a float wait.
proof fn lemma_pending_gone(state: DistModel, d: DeferredParChild)
    requires
        state.pending is None,
    ensures
        state.with_uniform_par(d).0.pending is None,
        forall|float: Frame, side: FixedAlignment|
            (#[trigger] state.with_wrap_fallback(d, float, side)).0.pending is None,
        forall|setup: WrapSetup| (#[trigger] state.with_wrapped_par(d, setup)).0.pending is None,
        forall|float: Frame, side: FixedAlignment, n: usize|
            (#[trigger] state.with_capped_par(d, float, side, n)).0.pending is None,
        forall|float: Frame, side: FixedAlignment|
            (#[trigger] state.with_floated_par(d, float, side)).0.pending is None,
{
    lemma_uniform_pending(state, d);
    assert forall|float: Frame, side: FixedAlignment|
        (#[trigger] state.with_wrap_fallback(d, float, side)).0.pending is None by {
        lemma_uniform_pending(state.with_float_reserved(float, side), d);
    }
    assert forall|setup: WrapSetup|
        (#[trigger] state.with_wrapped_par(d, setup)).0.pending is None by {
        lemma_wrapped_pending(state, d, setup);
    }
    assert forall|float: Frame, side: FixedAlignment, n: usize|
        (#[trigger] state.with_capped_par(d, float, side, n)).0.pending is None by {
        let (measured, line_height) = state.line_height_of(d);
        if let Ok(line_height) = line_height {
            lemma_uniform_pending(measured.with_float_reserved(float, side), d);
            let (asked, cap) = measured.cap_height_of(d);
            if let Ok(cap) = cap {
                lemma_wrapped_pending(
                    asked,
                    d,
                    WrapSetup { float, side, cap: Some((n, cap)), line_height },
                );
            }
        }
    }
    assert forall|float: Frame, side: FixedAlignment|
        (#[trigger] state.with_floated_par(d, float, side)).0.pending is None by {
        lemma_uniform_pending(state.with_float_reserved(float, side), d);
        let (measured, line_height) = state.line_height_of(d);
        if let Ok(line_height) = line_height {
            lemma_wrapped_pending(measured, d, WrapSetup { float, side, cap: None, line_height });
        }
    }
}

/// Emitting lines makes no float wait.
proof fn lemma_lines_pending(
    state: DistModel,
    lines: Seq<LineChild>,
    i: int,
    leading: Abs,
    spacing: Abs,
    advance: bool,
    trailing: bool,
)
    requires
        0 <= i <= lines.len(),
        state.pending is None,
    ensures
        state.with_lines(lines, i, leading, spacing, advance, trailing).0.pending is None,
    decreases lines.len() - i,
{
    if i < lines.len() {
        let led = state.with_leading(i, leading);
        if !led.line_must_move(lines[i]) {
            let (framed, result) = led.with_frame(lines[i].frame, lines[i].align, false, false);
            if result is Ok {
                lemma_lines_pending(framed, lines, i + 1, leading, spacing, advance, trailing);
            }
        }
    }
}

/// A paragraph at full width makes no float wait.
proof fn lemma_uniform_pending(state: DistModel, d: DeferredParChild)
    requires
        state.pending is None,
    ensures
        state.with_uniform_par(d).0.pending is None,
{
    let (asked, answer) = state.par_lines(d, d.base, None);
    if let Ok(frames) = answer {
        let lines = line_children(par_end_marked(frames), d.elem.leading, d.elem.style);
        let spaced = asked.with_tags_flushed().with_rel(Rel::absolute(d.elem.spacing), 4);
        lemma_lines_pending(spaced, lines, 0, d.elem.leading, d.elem.spacing, true, true);
    }
}

/// A paragraph beside a float makes no other float wait.
proof fn lemma_wrapped_pending(state: DistModel, d: DeferredParChild, setup: WrapSetup)
    requires
        state.pending is None,
    ensures
        state.with_wrapped_par(d, setup).0.pending is None,
{
    let profile = d.profile(setup, state.regions.size.x);
    let (asked, answer) = state.par_lines(d, d.base, Some(profile));
    if let Ok(frames) = answer {
        lemma_uniform_pending(asked.with_float_reserved(setup.float, setup.side), d);
        let plan = d.plan(setup, frames, asked.continuation_follows());
        let lines = line_children(frames, d.elem.leading, d.elem.style);
        let spaced = asked.with_cap(plan.cap).with_tags_flushed().with_rel(
            Rel::absolute(d.elem.spacing),
            4,
        );
        lemma_lines_pending(
            spaced,
            lines,
            0,
            d.elem.leading,
            d.elem.spacing,
            true,
            plan.band is None,
        );
    }
}

/// A paragraph whose lines are equally high and of which all narrowed lines stay in the region is
/// laid out beside its float, as planned for its lines.
pub proof fn law_paragraph_stays_beside_its_float(
    state: DistModel,
    d: DeferredParChild,
    setup: WrapSetup,
    frames: Seq<Frame>,
)
    requires
        state.par_lines(d, d.base, Some(d.profile(setup, state.regions.size.x))).1 == Ok::<
            Seq<Frame>,
            StopModel,
        >(frames),
        !pitch_varies(frames, setup.line_height),
        frames.len() <= usize::MAX,
        ({
            let asked = state.par_lines(
                d,
                d.base,
                Some(d.profile(setup, state.regions.size.x)),
            ).0;
            let spaced = asked.with_rel(Rel::absolute(d.elem.spacing), 4);
            let lines = line_children(frames, d.elem.leading, d.elem.style);
            forall|k: usize|
                spaced.regions.first_moved(lines, 0, d.elem.leading) <= k < frames.len() ==> !(
                #[trigger] d.profile(setup, state.regions.size.x).narrows(k))
        }),
    ensures
        ({
            let asked = state.par_lines(
                d,
                d.base,
                Some(d.profile(setup, state.regions.size.x)),
            ).0;
            state.with_wrapped_par(d, setup) == asked.with_planned_lines(
                d,
                frames,
                d.plan(setup, frames, asked.continuation_follows()),
            )
        }),
{
}

/// A paragraph at full width has its spacing before and after it. It is done where its last lines
/// have to go to the next region.
pub proof fn law_full_width_paragraph_is_spaced(
    state: DistModel,
    d: DeferredParChild,
    frames: Seq<Frame>,
)
    requires
        state.par_lines(d, d.base, None).1 == Ok::<Seq<Frame>, StopModel>(frames),
    ensures
        ({
            let asked = state.par_lines(d, d.base, None).0;
            let spaced = asked.with_tags_flushed().with_rel(Rel::absolute(d.elem.spacing), 4);
            state.with_uniform_par(d) == spaced.with_lines(
                line_children(par_end_marked(frames), d.elem.leading, d.elem.style),
                0,
                d.elem.leading,
                d.elem.spacing,
                true,
                true,
            )
        }),
{
}

/// A continuation paragraph beside the band has the band's gap before it and its own spacing after
/// it. It is done where its last lines have to go to the next region, and the band ends then.
pub proof fn law_continuation_is_spaced(
    state: DistModel,
    d: DeferredParChild,
    band: ActiveBand,
    frames: Seq<Frame>,
)
    requires
        state.band == Some(band),
        d.continuation,
        state.asked_beside(d, band).1 == Ok::<Seq<Frame>, StopModel>(frames),
        !pitch_varies(frames, band.pitch.minus(band.leading)),
        !state.asked_beside(d, band).0.rest_straddles(d, band.after_gap(), frames),
    ensures
        ({
            let asked = state.asked_beside(d, band).0;
            let spaced = state.with_tags_flushed().with_rel(Rel::absolute(band.gap), 4);
            let emitted = asked.with_lines(
                line_children(par_end_marked(frames), band.leading, d.elem.style),
                0,
                band.leading,
                d.elem.spacing,
                true,
                true,
            );
            let (after, result) = state.with_child(Child::Deferred(d));
            &&& asked.items == spaced.items
            &&& asked.regions == spaced.regions
            &&& asked.composer.work == spaced.composer.work
            &&& emitted.1 is Ok ==> result is Ok
            &&& emitted.1 is Err ==> result == emitted.1
            &&& after == (DistModel { band: after.band, ..emitted.0 })
            &&& result is Err ==> after.band is None
        }),
{
    let asked = state.asked_beside(d, band).0;
    let rest = band.after_gap();
    let emitted = asked.with_lines(
        line_children(par_end_marked(frames), band.leading, d.elem.style),
        0,
        band.leading,
        d.elem.spacing,
        true,
        true,
    );
    assert(rest.leading == band.leading);
    assert(state.with_child(Child::Deferred(d)) == asked.with_band_lines(
        d,
        frames,
        rest,
        band.pitch.minus(band.leading),
    ));
    let after = state.with_child(Child::Deferred(d)).0;
    assert(after =~= DistModel { band: after.band, ..emitted.0 });
}

/// Narrowed lines straddle the end of a region if one of them comes no earlier than the first line
/// that has to go to the next region.
pub proof fn law_straddling_lines_are_narrow_and_moved(
    state: DistModel,
    d: DeferredParChild,
    band: ActiveBand,
    frames: Seq<Frame>,
    k: usize,
)
    requires
        k < frames.len(),
        band.profile(state.regions.size.x).narrows(k),
        state.regions.first_moved(
            line_children(par_end_marked(frames), band.leading, d.elem.style),
            0,
            band.leading,
        ) <= k,
    ensures
        state.rest_straddles(d, band, frames),
{
}

} // verus!
