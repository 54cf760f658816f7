//! Laws of the dialogue: further answers do not change what was decided on those before them.
use vstd::prelude::*;

use crate::child::{
    Child, DeferredParChild, LineChild, MultiChild, PlacedChild, SingleChild, SpillModel,
    WrapSpillModel,
};
use crate::collect::{collection, leading_tags, tags_from, CollectorModel};
use crate::distribute::finalize::{division, Division};
use crate::distribute::wrapped::{WrapPlan, WrapSetup};
use crate::distribute::{distributed, distribution, DistModel, SnapshotModel};
use crate::element::{Element, FlowMode};
use crate::engine::{AnswerModel, EngineModel, ErrorModel, RequestModel, StopModel};
use crate::frame::{par_end_marked, Frame};
use crate::geom::{Abs, Axes, FixedAlignment, Rel, Size};
use crate::item::{has_frame, Item};
use crate::lines::line_children;
use crate::region::{Region, RegionsModel};
use crate::work::{ComposerModel, WorkModel};
use crate::wrap::ProfileModel;

verus! {

/// An engine with further answers.
pub open spec fn told(engine: EngineModel, more: Seq<AnswerModel>) -> EngineModel {
    EngineModel { answers: engine.answers + more, ..engine }
}

/// A composer with further answers.
pub open spec fn composer_told(composer: ComposerModel, more: Seq<AnswerModel>) -> ComposerModel {
    ComposerModel { engine: told(composer.engine, more), ..composer }
}

/// A state with further answers.
pub open spec fn state_told(state: DistModel, more: Seq<AnswerModel>) -> DistModel {
    DistModel { composer: composer_told(state.composer, more), ..state }
}

/// Whether an error is that a request has not been answered.
pub open spec fn is_open<T>(result: Result<T, ErrorModel>) -> bool {
    result matches Err(ErrorModel::Unanswered(_))
}

/// Whether a stop is that a request has not been answered.
pub open spec fn stops_open<T>(result: Result<T, StopModel>) -> bool {
    result matches Err(StopModel::Error(ErrorModel::Unanswered(_)))
}

/// Whether all answers have been used.
pub open spec fn used_up(engine: EngineModel) -> bool {
    engine.next >= engine.answers.len()
}

/// Whether a step takes the same course with further answers, unless it stops because a request
/// has not been answered, which only happens once all answers have been used.
pub open spec fn replays(
    step: (DistModel, Result<(), StopModel>),
    again: (DistModel, Result<(), StopModel>),
    more: Seq<AnswerModel>,
) -> bool {
    if stops_open(step.1) {
        used_up(step.0.composer.engine)
    } else {
        again == (state_told(step.0, more), step.1)
    }
}

/// A request is answered in the same way with further answers.
proof fn lemma_ask(engine: EngineModel, request: RequestModel, more: Seq<AnswerModel>)
    ensures
        ({
            let (asked, answer) = engine.ask(request);
            if is_open(answer) {
                used_up(asked)
            } else {
                told(engine, more).ask(request) == (told(asked, more), answer)
            }
        }),
{
}

/// A frame is answered in the same way with further answers.
proof fn lemma_ask_frame(engine: EngineModel, request: RequestModel, more: Seq<AnswerModel>)
    ensures
        ({
            let (asked, answer) = engine.ask_frame(request);
            if is_open(answer) {
                used_up(asked)
            } else {
                told(engine, more).ask_frame(request) == (told(asked, more), answer)
            }
        }),
{
    lemma_ask(engine, request, more);
}

/// Frames are answered in the same way with further answers.
proof fn lemma_ask_frames(engine: EngineModel, request: RequestModel, more: Seq<AnswerModel>)
    ensures
        ({
            let (asked, answer) = engine.ask_frames(request);
            if is_open(answer) {
                used_up(asked)
            } else {
                told(engine, more).ask_frames(request) == (told(asked, more), answer)
            }
        }),
{
    lemma_ask(engine, request, more);
}

/// Footnotes are inserted in the same way with further answers.
proof fn lemma_footnotes(
    state: DistModel,
    frame: Frame,
    need: Abs,
    breakable: bool,
    more: Seq<AnswerModel>,
)
    ensures
        replays(
            state.with_footnotes(frame, need, breakable),
            state_told(state, more).with_footnotes(frame, need, breakable),
            more,
        ),
{
    let request = RequestModel::Footnotes {
        regions: state.regions,
        frame,
        flow_need: need,
        breakable,
        migratable: true,
    };
    lemma_ask(state.composer.engine, request, more);
}

/// Steps that ask nothing commute with further answers.
proof fn lemma_silent(
    state: DistModel,
    frame: Frame,
    align: Axes<FixedAlignment>,
    sticky: bool,
    amount: Rel,
    weakness: u8,
    more: Seq<AnswerModel>,
)
    ensures
        state_told(state, more).with_frame_item(frame, align) == state_told(
            state.with_frame_item(frame, align),
            more,
        ),
        state_told(state, more).with_stickiness(frame, sticky) == state_told(
            state.with_stickiness(frame, sticky),
            more,
        ),
        state_told(state, more).with_rel(amount, weakness) == state_told(
            state.with_rel(amount, weakness),
            more,
        ),
        state_told(state, more).with_tags_flushed() == state_told(
            state.with_tags_flushed(),
            more,
        ),
{
}

/// A frame is added in the same way with further answers.
proof fn lemma_frame(
    state: DistModel,
    frame: Frame,
    align: Axes<FixedAlignment>,
    sticky: bool,
    breakable: bool,
    more: Seq<AnswerModel>,
)
    ensures
        replays(
            state.with_frame(frame, align, sticky, breakable),
            state_told(state, more).with_frame(frame, align, sticky, breakable),
            more,
        ),
{
    let b = state.with_stickiness(frame, sticky);
    lemma_silent(state, frame, align, sticky, Rel::absolute(Abs(0)), 0, more);
    lemma_footnotes(b, frame, frame.height(), breakable, more);
    let (c, result) = b.with_footnotes(frame, frame.height(), breakable);
    lemma_silent(c, frame, align, sticky, Rel::absolute(Abs(0)), 0, more);
}

/// An unbreakable block is added in the same way with further answers.
proof fn lemma_single(state: DistModel, single: SingleChild, more: Seq<AnswerModel>)
    ensures
        replays(state.with_single(single), state_told(state, more).with_single(single), more),
{
    let region = Region { size: state.regions.base(), expand: state.regions.expand };
    let request = RequestModel::Single { single, region: single.pod(region) };
    lemma_ask_frame(state.composer.engine, request, more);
    let (engine, laid_out) = state.composer.engine.ask_frame(request);
    if let Ok(frame) = laid_out {
        let b = state.with_engine(engine);
        assert(state_told(state, more).with_engine(told(engine, more)) =~= state_told(b, more));
        match single.fr {
            Some(fr) => {
                lemma_footnotes(b, frame, Abs(0), false, more);
                let (c, result) = b.with_footnotes(frame, Abs(0), false);
                let item = Item::Fr(fr, 0, Some(single));
                assert(state_told(c, more).with_tags_flushed().pushed(item) =~= state_told(
                    c.with_tags_flushed().pushed(item),
                    more,
                ));
            },
            None => {
                lemma_frame(b, frame, single.align, single.sticky, false, more);
            },
        }
    }
}

/// A breakable block is added in the same way with further answers.
proof fn lemma_multi(state: DistModel, multi: MultiChild, more: Seq<AnswerModel>)
    ensures
        replays(state.with_multi(multi), state_told(state, more).with_multi(multi), more),
{
    lemma_ask_frames(state.composer.engine, multi.request(state.regions), more);
    let (engine, laid_out) = multi.laid_out(state.composer.engine, state.regions);
    if let Ok((frame, spill)) = laid_out {
        let b = state.with_engine(engine);
        assert(state_told(state, more).with_engine(told(engine, more)) =~= state_told(b, more));
        lemma_frame(b, frame, multi.align, multi.sticky, true, more);
        let c = b.with_frame(frame, multi.align, multi.sticky, true).0;
        let e = c.with_spill(spill);
        assert(state_told(c, more).with_spill(spill).with_work(
            state_told(c, more).with_spill(spill).composer.work.advanced(),
        ) =~= state_told(e.with_work(e.composer.work.advanced()), more));
    }
}

/// What spilled over from a block is added in the same way with further answers.
proof fn lemma_multi_spill(state: DistModel, spill: SpillModel, more: Seq<AnswerModel>)
    ensures
        replays(
            state.with_multi_spill(spill),
            state_told(state, more).with_multi_spill(spill),
            more,
        ),
{
    lemma_ask_frames(
        state.composer.engine,
        spill.multi.request(spill.pod(state.regions)),
        more,
    );
    assert(state_told(state, more).with_spill(Some(spill)) =~= state_told(
        state.with_spill(Some(spill)),
        more,
    ));
    let (engine, laid_out) = spill.laid_out(state.composer.engine, state.regions);
    if let Ok((frame, rest)) = laid_out {
        let b = state.with_engine(engine);
        assert(state_told(state, more).with_engine(told(engine, more)) =~= state_told(b, more));
        lemma_frame(b, frame, spill.multi.align, false, true, more);
        let c = b.with_frame(frame, spill.multi.align, false, true).0;
        assert(state_told(c, more).with_spill(rest) =~= state_told(c.with_spill(rest), more));
    }
}

/// A placed child is added in the same way with further answers.
proof fn lemma_placed(state: DistModel, placed: PlacedChild, more: Seq<AnswerModel>)
    ensures
        replays(state.with_placed(placed), state_told(state, more).with_placed(placed), more),
{
    let again = state_told(state, more);
    if placed.float && !placed.wrap {
        let weak = state.trailing();
        let lent = state.with_y(state.y().plus(weak));
        let request = RequestModel::Float {
            placed,
            regions: lent.regions,
            clearance: has_frame(lent.items),
            migratable: true,
        };
        lemma_ask(state.composer.engine, request, more);
        assert(again.with_y(again.y().plus(weak)) =~= state_told(lent, more));
    } else {
        let base = state.regions.base();
        lemma_ask_frame(state.composer.engine, placed.request(base), more);
        let (engine, laid_out) = placed.laid_out(state.composer.engine, base);
        if let Ok(frame) = laid_out {
            let b = state.with_engine(engine);
            assert(again.with_engine(told(engine, more)) =~= state_told(b, more));
            if placed.float {
                let c = b.without_stickiness(frame);
                assert(state_told(b, more).without_stickiness(frame) =~= state_told(c, more));
                lemma_footnotes(c, frame, frame.height(), true, more);
                let e = c.with_footnotes(frame, frame.height(), true).0;
                let align = Axes { x: placed.align_x, y: FixedAlignment::Start };
                lemma_silent(e, frame, align, false, Rel::absolute(Abs(0)), 0, more);
            } else {
                lemma_footnotes(b, frame, Abs(0), true, more);
                let e = b.with_footnotes(frame, Abs(0), true).0;
                let item = Item::Placed(frame, placed);
                assert(state_told(e, more).with_tags_flushed().pushed(item) =~= state_told(
                    e.with_tags_flushed().pushed(item),
                    more,
                ));
            }
        }
    }
}

/// Lines are emitted in the same way with further answers.
proof fn lemma_lines(
    state: DistModel,
    lines: Seq<LineChild>,
    i: int,
    leading: Abs,
    spacing: Abs,
    advance: bool,
    trailing: bool,
    more: Seq<AnswerModel>,
)
    ensures
        replays(
            state.with_lines(lines, i, leading, spacing, advance, trailing),
            state_told(state, more).with_lines(lines, i, leading, spacing, advance, trailing),
            more,
        ),
    decreases lines.len() - i,
{
    let again = state_told(state, more);
    if i >= lines.len() {
        assert(again.with_rel(Rel::absolute(spacing), 4) =~= state_told(
            state.with_rel(Rel::absolute(spacing), 4),
            more,
        ));
    } else {
        let led = state.with_leading(i, leading);
        assert(again.with_leading(i, leading) =~= state_told(led, more));
        if led.line_must_move(lines[i]) {
            let rest = WrapSpillModel { lines: lines.skip(i), leading, spacing };
            assert(state_told(led, more).with_lines_carried(rest, advance) =~= state_told(
                led.with_lines_carried(rest, advance),
                more,
            ));
        } else {
            lemma_frame(led, lines[i].frame, lines[i].align, false, false, more);
            let framed = led.with_frame(lines[i].frame, lines[i].align, false, false);
            if framed.1 is Ok {
                lemma_lines(framed.0, lines, i + 1, leading, spacing, advance, trailing, more);
            }
        }
    }
}

/// The lines of a paragraph are answered in the same way with further answers.
proof fn lemma_par_lines(
    state: DistModel,
    d: DeferredParChild,
    base: Size,
    profile: Option<ProfileModel>,
    more: Seq<AnswerModel>,
)
    ensures
        ({
            let (asked, lines) = state.par_lines(d, base, profile);
            if stops_open(lines) {
                used_up(asked.composer.engine)
            } else {
                state_told(state, more).par_lines(d, base, profile) == (
                    state_told(asked, more),
                    lines,
                )
            }
        }),
{
    lemma_ask_frames(state.composer.engine, d.request(base, profile), more);
    let (asked, _) = state.par_lines(d, base, profile);
    assert(state_told(state, more).with_engine(told(asked.composer.engine, more)) =~= state_told(
        asked,
        more,
    ));
}

/// A paragraph at full width is added in the same way with further answers.
proof fn lemma_uniform_par(state: DistModel, d: DeferredParChild, more: Seq<AnswerModel>)
    ensures
        replays(state.with_uniform_par(d), state_told(state, more).with_uniform_par(d), more),
{
    lemma_par_lines(state, d, d.base, None, more);
    let (b, result) = state.par_lines(d, d.base, None);
    if let Ok(frames) = result {
        let lines = line_children(par_end_marked(frames), d.elem.leading, d.elem.style);
        let spacing = Rel::absolute(d.elem.spacing);
        let c = b.with_tags_flushed().with_rel(spacing, 4);
        assert(state_told(b, more).with_tags_flushed().with_rel(spacing, 4) =~= state_told(
            c,
            more,
        ));
        lemma_lines(c, lines, 0, d.elem.leading, d.elem.spacing, true, true, more);
    }
}

/// A paragraph below its float is added in the same way with further answers.
proof fn lemma_wrap_fallback(
    state: DistModel,
    d: DeferredParChild,
    frame: Frame,
    side: FixedAlignment,
    more: Seq<AnswerModel>,
)
    ensures
        replays(
            state.with_wrap_fallback(d, frame, side),
            state_told(state, more).with_wrap_fallback(d, frame, side),
            more,
        ),
{
    let b = state.with_float_reserved(frame, side);
    assert(state_told(state, more).with_float_reserved(frame, side) =~= state_told(b, more));
    lemma_uniform_par(b, d, more);
}

/// The lines beside a float are emitted in the same way with further answers.
proof fn lemma_planned_lines(
    state: DistModel,
    d: DeferredParChild,
    frames: Seq<Frame>,
    plan: WrapPlan,
    more: Seq<AnswerModel>,
)
    ensures
        replays(
            state.with_planned_lines(d, frames, plan),
            state_told(state, more).with_planned_lines(d, frames, plan),
            more,
        ),
{
    let lines = line_children(frames, d.elem.leading, d.elem.style);
    let spacing = Rel::absolute(d.elem.spacing);
    let b = state.with_cap(plan.cap).with_tags_flushed().with_rel(spacing, 4);
    assert(state_told(state, more).with_cap(plan.cap) =~= state_told(
        state.with_cap(plan.cap),
        more,
    ));
    assert(state_told(state, more).with_cap(plan.cap).with_tags_flushed().with_rel(spacing, 4)
        =~= state_told(b, more));
    lemma_lines(b, lines, 0, d.elem.leading, d.elem.spacing, true, plan.band is None, more);
}

/// A paragraph beside a float is added in the same way with further answers.
proof fn lemma_wrapped_par(
    state: DistModel,
    d: DeferredParChild,
    setup: WrapSetup,
    more: Seq<AnswerModel>,
)
    ensures
        replays(
            state.with_wrapped_par(d, setup),
            state_told(state, more).with_wrapped_par(d, setup),
            more,
        ),
{
    let profile = Some(d.profile(setup, state.regions.size.x));
    lemma_par_lines(state, d, d.base, profile, more);
    let (b, result) = state.par_lines(d, d.base, profile);
    if let Ok(frames) = result {
        lemma_wrap_fallback(b, d, setup.float, setup.side, more);
        let plan = d.plan(setup, frames, b.continuation_follows());
        lemma_planned_lines(b, d, frames, plan, more);
    }
}

/// A paragraph beside a drop cap is added in the same way with further answers.
proof fn lemma_capped_par(
    state: DistModel,
    d: DeferredParChild,
    float: Frame,
    side: FixedAlignment,
    n: usize,
    more: Seq<AnswerModel>,
)
    ensures
        replays(
            state.with_capped_par(d, float, side, n),
            state_told(state, more).with_capped_par(d, float, side, n),
            more,
        ),
{
    lemma_par_lines(state, d, state.regions.size, None, more);
    let (b, measured) = state.line_height_of(d);
    if let Ok(line_height) = measured {
        lemma_wrap_fallback(b, d, float, side, more);
        lemma_ask(b.composer.engine, RequestModel::CapHeights { elem: d.elem }, more);
        let (c, looked_up) = b.cap_height_of(d);
        assert(state_told(b, more).with_engine(told(c.composer.engine, more)) =~= state_told(
            c,
            more,
        ));
        if let Ok(cap) = looked_up {
            let setup = WrapSetup { float, side, cap: Some((n, cap)), line_height };
            lemma_wrapped_par(c, d, setup, more);
        }
    }
}

/// A deferred paragraph is added in the same way with further answers.
proof fn lemma_deferred_par(state: DistModel, d: DeferredParChild, more: Seq<AnswerModel>)
    ensures
        replays(state.with_deferred_par(d), state_told(state, more).with_deferred_par(d), more),
{
    let taken = DistModel { pending: None, ..state };
    assert(DistModel { pending: None, ..state_told(state, more) } =~= state_told(taken, more));
    match state.pending {
        None => lemma_uniform_par(taken, d, more),
        Some((float, side)) => match d.cap_lines() {
            Some(n) => lemma_capped_par(taken, d, float, side, n, more),
            None => {
                lemma_wrap_fallback(taken, d, float, side, more);
                lemma_par_lines(taken, d, taken.regions.size, None, more);
                let (b, measured) = taken.line_height_of(d);
                if let Ok(line_height) = measured {
                    let setup = WrapSetup { float, side, cap: None, line_height };
                    lemma_wrapped_par(b, d, setup, more);
                }
            },
        },
    }
}

/// A continuation paragraph is added in the same way with further answers.
proof fn lemma_continuation_par(state: DistModel, d: DeferredParChild, more: Seq<AnswerModel>)
    ensures
        replays(
            state.with_continuation_par(d),
            state_told(state, more).with_continuation_par(d),
            more,
        ),
{
    match state.band {
        None => lemma_uniform_par(state, d, more),
        Some(band) => {
            let gap = Rel::absolute(band.gap);
            let b = state.with_tags_flushed().with_rel(gap, 4);
            assert(state_told(state, more).with_tags_flushed().with_rel(gap, 4) =~= state_told(
                b,
                more,
            ));
            let profile = Some(band.after_gap().profile(state.regions.size.x));
            lemma_par_lines(b, d, d.base, profile, more);
            let (c, result) = b.par_lines(d, d.base, profile);
            if let Ok(frames) = result {
                let rest = band.after_gap();
                let e = (DistModel { band: None, ..c }).with_gap(rest.remaining);
                assert((DistModel { band: None, ..state_told(c, more) }).with_gap(rest.remaining)
                    =~= state_told(e, more));
                lemma_uniform_par(e, d, more);
                let lines = line_children(par_end_marked(frames), rest.leading, d.elem.style);
                lemma_lines(c, lines, 0, rest.leading, d.elem.spacing, true, true, more);
            }
        },
    }
}

/// A child is processed in the same way with further answers.
proof fn lemma_child(state: DistModel, child: Child, more: Seq<AnswerModel>)
    ensures
        replays(state.with_child(child), state_told(state, more).with_child(child), more),
{
    let again = state_told(state, more);
    let b = state.with_band_cleared(child);
    assert(again.with_band_cleared(child) =~= state_told(b, more));
    match child {
        Child::Tag(tag) => {
            assert(state_told(b, more).with_tag(tag) =~= state_told(b.with_tag(tag), more));
        },
        Child::Rel(amount, weakness) => {
            assert(state_told(b, more).with_rel(amount, weakness) =~= state_told(
                b.with_rel(amount, weakness),
                more,
            ));
        },
        Child::Fr(fr, weakness) => {
            assert(state_told(b, more).with_fr(fr, weakness) =~= state_told(
                b.with_fr(fr, weakness),
                more,
            ));
        },
        Child::Line(line) => lemma_frame(b, line.frame, line.align, false, false, more),
        Child::Single(single) => lemma_single(b, single, more),
        Child::Multi(multi) => lemma_multi(b, multi, more),
        Child::Placed(placed) => lemma_placed(b, placed, more),
        Child::Deferred(d) => if d.continuation && b.band is Some {
            lemma_continuation_par(b, d, more);
        } else {
            lemma_deferred_par(b, d, more);
        },
        Child::Flush => {},
        Child::Break(weak) => {
            assert(state_told(b, more).with_work(b.composer.work.advanced()) =~= state_told(
                b.with_work(b.composer.work.advanced()),
                more,
            ));
        },
    }
}

/// The children are processed in the same way with further answers.
proof fn lemma_children(
    state: DistModel,
    children: Seq<Child>,
    k: int,
    more: Seq<AnswerModel>,
)
    ensures
        replays(
            state.with_children(children, k),
            state_told(state, more).with_children(children, k),
            more,
        ),
    decreases children.len() - k,
{
    if k < children.len() {
        lemma_child(state, children[k], more);
        let (b, result) = state.with_child(children[k]);
        if result is Ok {
            let c = b.with_work(b.composer.work.advanced());
            assert(state_told(b, more).with_work(b.composer.work.advanced()) =~= state_told(
                c,
                more,
            ));
            lemma_children(c, children, k + 1, more);
        }
    }
}

/// A run takes the same course with further answers.
proof fn lemma_run(state: DistModel, more: Seq<AnswerModel>)
    ensures
        replays(state.run(), state_told(state, more).run(), more),
{
    let again = state_told(state, more);
    if let Some(spill) = state.composer.work.spill {
        let taken = state.with_spill(None);
        assert(again.with_spill(None) =~= state_told(taken, more));
        lemma_multi_spill(taken, spill, more);
    }
    let (b, result) = state.with_block_resumed();
    assert(replays((b, result), again.with_block_resumed(), more));
    if result is Ok {
        if let Some(spill) = b.composer.work.wrap_spill {
            let taken = b.with_work(WorkModel { wrap_spill: None, ..b.composer.work });
            assert(state_told(b, more).with_work(
                WorkModel { wrap_spill: None, ..b.composer.work },
            ) =~= state_told(taken, more));
            let kept = WorkModel { wrap_spill: Some(spill), ..taken.composer.work };
            assert(state_told(taken, more).with_work(kept) =~= state_told(
                taken.with_work(kept),
                more,
            ));
            lemma_lines(taken, spill.lines, 0, spill.leading, spill.spacing, false, true, more);
        }
        let (c, result) = b.with_par_resumed();
        assert(replays((c, result), state_told(b, more).with_par_resumed(), more));
        if result is Ok {
            let work = c.composer.work;
            lemma_children(c, work.children, work.head as int, more);
        }
    }
}

/// Fractional blocks are laid out in the same way with further answers.
proof fn lemma_fr_frames(
    division: Division,
    engine: EngineModel,
    items: Seq<Item>,
    n: nat,
    more: Seq<AnswerModel>,
)
    ensures
        ({
            let (asked, frames) = division.fr_frames(engine, items, n);
            if is_open(frames) {
                used_up(asked)
            } else {
                division.fr_frames(told(engine, more), items, n) == (told(asked, more), frames)
            }
        }),
    decreases n,
{
    if n > 0 {
        lemma_fr_frames(division, engine, items, (n - 1) as nat, more);
        let (asked, result) = division.fr_frames(engine, items, (n - 1) as nat);
        if result is Ok {
            if let Item::Fr(fr, _, Some(single)) = items[n - 1] {
                let pod = Region {
                    size: Axes {
                        x: division.region.size.x,
                        y: fr.share(division.total, division.space),
                    },
                    expand: division.region.expand,
                };
                lemma_ask_frame(
                    asked,
                    RequestModel::Single { single, region: single.pod(pod) },
                    more,
                );
            }
        }
    }
}

/// The items are arranged in the same way with further answers.
proof fn lemma_finalized(
    state: DistModel,
    region: Region,
    init: SnapshotModel,
    forced: bool,
    more: Seq<AnswerModel>,
)
    ensures
        ({
            let (composer, frame) = state.finalized(region, init, forced);
            if stops_open(frame) {
                used_up(composer.engine)
            } else {
                state_told(state, more).finalized(region, init, forced) == (
                    composer_told(composer, more),
                    frame,
                )
            }
        }),
{
    let settled = state.settled(init, forced);
    assert(state_told(state, more).settled(init, forced) =~= state_told(settled, more));
    let divided = division(region, settled.items);
    let n = settled.items.len();
    lemma_fr_frames(divided, settled.composer.engine, settled.items, n, more);
    let (asked, result) = divided.fr_frames(settled.composer.engine, settled.items, n);
    if result is Ok {
        lemma_ask(asked, RequestModel::InsertionWidth, more);
    }
}

/// Further answers do not change what was decided on those before them: a distribution that ends
/// without an open request ends in the same way with further answers, which are left unused. It
/// ends with an open request only once all answers have been used. So the answers can be given
/// one by one, each time starting over.
pub proof fn law_distribution_replays(
    composer: ComposerModel,
    regions: RegionsModel,
    more: Seq<AnswerModel>,
)
    ensures
        ({
            let (after, frame) = distributed(composer, regions);
            if stops_open(frame) {
                used_up(after.engine)
            } else {
                distributed(composer_told(composer, more), regions) == (
                    composer_told(after, more),
                    frame,
                )
            }
        }),
{
    let start = distribution(composer, regions);
    assert(distribution(composer_told(composer, more), regions) =~= state_told(start, more));
    assert(state_told(start, more).snapshot() == start.snapshot());
    lemma_run(start, more);
    let region = Region { size: regions.size, expand: regions.expand };
    let (state, result) = start.run();
    match result {
        Ok(()) => {
            let forced = state.composer.work.done();
            lemma_finalized(state, region, start.snapshot(), forced, more);
        },
        Err(StopModel::Finish(forced)) => {
            lemma_finalized(state, region, start.snapshot(), forced, more);
        },
        _ => {},
    }
}

/// An element is collected in the same way with further answers.
proof fn lemma_element(
    model: CollectorModel,
    engine: EngineModel,
    elem: Element,
    more: Seq<AnswerModel>,
)
    ensures
        ({
            let (asked, result) = model.with_element(engine, elem);
            if is_open(result) {
                used_up(asked)
            } else {
                model.with_element(told(engine, more), elem) == (told(asked, more), result)
            }
        }),
{
    if let Element::Par(par) = elem {
        let request = RequestModel::Par {
            elem: par,
            locator: model.locator(),
            base: model.base,
            expand: model.expand,
            situation: model.situation,
            profile: None,
        };
        lemma_ask_frames(engine, request, more);
    }
}

/// Elements are collected in the same way with further answers.
proof fn lemma_block_run(
    model: CollectorModel,
    engine: EngineModel,
    n: nat,
    more: Seq<AnswerModel>,
)
    ensures
        ({
            let (asked, result) = model.block_run(engine, n);
            if is_open(result) {
                used_up(asked)
            } else {
                model.block_run(told(engine, more), n) == (told(asked, more), result)
            }
        }),
    decreases n,
{
    if n > 0 {
        lemma_block_run(model, engine, (n - 1) as nat, more);
        let (asked, result) = model.block_run(engine, (n - 1) as nat);
        if let Ok(before) = result {
            lemma_element(before, asked, model.children[n - 1], more);
        }
    }
}

/// A collection that ends without an open request ends in the same way with further answers. It
/// ends with an open request only once all answers have been used.
pub proof fn law_collection_replays(
    children: Seq<Element>,
    base: Size,
    expand: bool,
    engine: EngineModel,
    mode: FlowMode,
    more: Seq<AnswerModel>,
)
    ensures
        ({
            let start = collection(children, base, expand);
            let (asked, result) = start.run(engine, mode);
            if is_open(result) {
                used_up(asked)
            } else {
                start.run(told(engine, more), mode) == (told(asked, more), result)
            }
        }),
{
    let start = collection(children, base, expand);
    lemma_block_run(start, engine, children.len(), more);
    let first = leading_tags(children);
    let request = RequestModel::Inline {
        start: first as usize,
        end: tags_from(children, first) as usize,
        base,
        expand,
    };
    lemma_ask(engine, request, more);
}

} // verus!
