//! Laws of the lines of paragraphs that were deferred.
use vstd::prelude::*;

use crate::child::{Child, DeferredParChild, LineChild};
use crate::distribute::wrapped::{
    cap_span, cap_target, gaps, heights, line_frames, lines_height, pitch_varies, WrapPlan,
    WrapSetup,
};
use crate::distribute::{ActiveBand, DistModel};
use crate::engine::StopModel;
use crate::frame::{par_end_marked, Frame, Tag};
use crate::geom::{div_trunc, Abs, FixedAlignment, Rel};
use crate::item::{last_stop, Item};
use crate::laws::items::{lemma_is_last_stop, lemma_last_stop};
use crate::lines::{leaded, line_children};

verus! {

/// The frames among the items, in order.
pub open spec fn item_frames(items: Seq<Item>) -> Seq<Frame>
    decreases items.len(),
{
    if items.len() == 0 {
        Seq::empty()
    } else {
        match items.last() {
            Item::Frame(frame, _) => item_frames(items.drop_last()).push(frame),
            _ => item_frames(items.drop_last()),
        }
    }
}

/// Replacing an item that is no frame by another changes no frames.
proof fn lemma_frames_replaced(items: Seq<Item>, i: int, item: Item)
    requires
        0 <= i < items.len(),
        !(items[i] is Frame),
        !(item is Frame),
    ensures
        item_frames(items.update(i, item)) == item_frames(items),
    decreases items.len(),
{
    let after = items.update(i, item);
    if i == items.len() - 1 {
        assert(after.drop_last() =~= items.drop_last());
    } else {
        assert(after.drop_last() =~= items.drop_last().update(i, item));
        lemma_frames_replaced(items.drop_last(), i, item);
    }
}

/// Items for tags add no frames.
proof fn lemma_frames_tags(items: Seq<Item>, tags: Seq<Tag>)
    ensures
        item_frames(items + tags.map_values(|tag: Tag| Item::Tag(tag))) == item_frames(items),
    decreases tags.len(),
{
    let added = tags.map_values(|tag: Tag| Item::Tag(tag));
    if tags.len() == 0 {
        assert(items + added =~= items);
    } else {
        let front = tags.drop_last();
        lemma_frames_tags(items, front);
        assert((items + added).drop_last() =~= items + front.map_values(
            |tag: Tag| Item::Tag(tag),
        ));
    }
}

/// Relative spacing adds no frames.
proof fn lemma_frames_rel(state: DistModel, amount: Rel, weakness: u8)
    ensures
        item_frames(state.with_rel(amount, weakness).items) == item_frames(state.items),
        state.with_rel(amount, weakness).composer == state.composer,
{
    let item = Item::Abs(amount.relative_to(state.regions.full), weakness);
    let i = last_stop(state.items);
    lemma_last_stop(state.items);
    if i >= 0 && state.items[i] is Abs {
        lemma_frames_replaced(state.items, i, item);
    }
    assert(state.items.push(item).drop_last() =~= state.items);
}

/// An in-flow frame adds itself.
proof fn lemma_frames_frame(state: DistModel, line: LineChild)
    ensures
        ({
            let (after, result) = state.with_frame(line.frame, line.align, false, false);
            &&& after.composer.work.wrap_spill == state.composer.work.wrap_spill
            &&& item_frames(after.items) == if result is Ok {
                item_frames(state.items).push(line.frame)
            } else {
                item_frames(state.items)
            }
            &&& result is Ok ==> after.items.len() > 0 && after.items.last() == Item::Frame(
                line.frame,
                line.align,
            )
            &&& after.y() == if result is Ok {
                state.y().minus(line.frame.height())
            } else {
                state.y()
            }
        }),
{
    let noted = state.with_stickiness(line.frame, false).with_footnotes(
        line.frame,
        line.frame.height(),
        false,
    );
    assert(noted.0.items == state.items);
    let tags = noted.0.composer.work.tags;
    let flushed = state.items + tags.map_values(|tag: Tag| Item::Tag(tag));
    lemma_frames_tags(state.items, tags);
    let item = Item::Frame(line.frame, line.align);
    assert(flushed.push(item).drop_last() =~= flushed);
}

/// No line of a paragraph is lost, repeated or moved past another one where the paragraph is split
/// between regions: the lines that were emitted followed by those that are carried on are all the
/// lines, and without lines that are carried on all of them were emitted.
pub proof fn law_lines_are_split_between_regions(
    state: DistModel,
    lines: Seq<LineChild>,
    i: int,
    leading: Abs,
    spacing: Abs,
    advance: bool,
    trailing: bool,
)
    requires
        0 <= i <= lines.len(),
        state.composer.work.wrap_spill is None,
    ensures
        ({
            let (after, result) = state.with_lines(lines, i, leading, spacing, advance, trailing);
            let all = item_frames(state.items) + line_frames(lines.skip(i));
            &&& result is Ok ==> item_frames(after.items) == all
            &&& after.composer.work.wrap_spill matches Some(rest) ==> {
                &&& result is Err
                &&& rest.lines.len() > 0
                &&& item_frames(after.items) + line_frames(rest.lines) == all
                &&& rest.leading == leading
                &&& rest.spacing == spacing
            }
        }),
    decreases lines.len() - i,
{
    if i >= lines.len() {
        lemma_frames_rel(state, Rel::absolute(spacing), 4);
        assert(item_frames(state.items) + line_frames(lines.skip(i)) =~= item_frames(state.items));
    } else {
        let led = state.with_leading(i, leading);
        lemma_frames_rel(state, Rel::absolute(leading), 5);
        if !led.line_must_move(lines[i]) {
            lemma_frames_frame(led, lines[i]);
            let (framed, result) = led.with_frame(lines[i].frame, lines[i].align, false, false);
            if result is Ok {
                law_lines_are_split_between_regions(
                    framed,
                    lines,
                    i + 1,
                    leading,
                    spacing,
                    advance,
                    trailing,
                );
                assert(item_frames(framed.items) + line_frames(lines.skip(i + 1)) =~= item_frames(
                    state.items,
                ) + line_frames(lines.skip(i)));
            }
        }
    }
}

/// A finite difference of a length and a finite one is exact.
proof fn lemma_exact(a: Abs, b: Abs)
    requires
        b.is_finite(),
        a.minus(b).is_finite(),
    ensures
        a.is_finite(),
        a.minus(b).0 == a.0 - b.0,
{
}

/// Spacing without a relative part is as wide as it says.
pub proof fn lemma_absolute(amount: Abs, whole: Abs)
    ensures
        Rel::absolute(amount).relative_to(whole) == amount,
{
    assert(whole.0 * 0 == 0);
}

/// Weak spacing is kept after a frame.
proof fn lemma_rel_after_frame(state: DistModel, amount: Abs, weakness: u8)
    requires
        state.items.len() > 0,
        state.items.last() is Frame,
    ensures
        state.with_rel(Rel::absolute(amount), weakness).y() == state.y().minus(amount),
{
    lemma_absolute(amount, state.regions.full);
    assert(last_stop(state.items) == state.items.len() - 1);
}

/// The height of the lines from index `i` on, with the leading before each of them but the first
/// of all, in raw units.
pub open spec fn extent_from(lines: Seq<Frame>, i: int, leading: Abs) -> int
    decreases lines.len() - i,
{
    if i >= lines.len() {
        0
    } else {
        lines[i].height().0 + extent_from(lines, i + 1, leading) + if i > 0 {
            leading.0 as int
        } else {
            0
        }
    }
}

/// Lines that are emitted take exactly their heights and the leading between them from the region,
/// and the spacing after them where it is emitted, too.
pub proof fn law_lines_take_their_height(
    state: DistModel,
    lines: Seq<LineChild>,
    i: int,
    leading: Abs,
    spacing: Abs,
    advance: bool,
    trailing: bool,
)
    requires
        0 <= i <= lines.len(),
        lines.len() > 0,
        i > 0 ==> state.items.len() > 0 && state.items.last() is Frame,
        leading.is_finite(),
        spacing.is_finite(),
        forall|k: int| 0 <= k < lines.len() ==> (#[trigger] lines[k]).frame.height().is_finite(),
        state.with_lines(lines, i, leading, spacing, advance, trailing).1 is Ok,
        state.with_lines(lines, i, leading, spacing, advance, trailing).0.y().is_finite(),
    ensures
        ({
            let after = state.with_lines(lines, i, leading, spacing, advance, trailing).0;
            &&& state.y().is_finite()
            &&& state.y().0 - after.y().0 == extent_from(line_frames(lines), i, leading) + (
            if trailing {
                spacing.0 as int
            } else {
                0
            })
        }),
    decreases lines.len() - i,
{
    let after = state.with_lines(lines, i, leading, spacing, advance, trailing).0;
    if i >= lines.len() {
        if trailing {
            lemma_rel_after_frame(state, spacing, 4);
            lemma_exact(state.y(), spacing);
        }
    } else {
        let led = state.with_leading(i, leading);
        lemma_frames_frame(led, lines[i]);
        let framed = led.with_frame(lines[i].frame, lines[i].align, false, false).0;
        law_lines_take_their_height(
            framed,
            lines,
            i + 1,
            leading,
            spacing,
            advance,
            trailing,
        );
        assert(lines[i].frame.height().is_finite());
        lemma_exact(led.y(), lines[i].frame.height());
        if i > 0 {
            lemma_rel_after_frame(state, leading, 5);
            lemma_exact(state.y(), leading);
        }
        assert(line_frames(lines)[i] == lines[i].frame);
    }
}

/// The sum of finite heights is exact where it is finite.
proof fn lemma_heights_exact(frames: Seq<Frame>, leading: Abs, n: int)
    requires
        0 <= n <= frames.len() <= usize::MAX,
        leading.is_finite(),
        forall|k: int| 0 <= k < frames.len() ==> (#[trigger] frames[k]).height().is_finite(),
        heights(frames.take(n)).is_finite(),
    ensures
        extent_from(frames, 0, leading) == heights(frames.take(n)).0 + leading.0 * gaps(n)
            + extent_from(frames, n, leading),
    decreases n,
{
    let front = frames.take(n);
    if n == 0 {
        assert(leading.0 * 0 == 0);
    } else {
        assert(front.drop_last() =~= frames.take(n - 1));
        assert(frames[n - 1].height().is_finite());
        assert(heights(frames.take(n - 1)).is_finite());
        lemma_heights_exact(frames, leading, n - 1);
        if n > 1 {
            let l = leading.0 as int;
            let g = gaps(n - 1) as int;
            assert(l * (g + 1) == l * g + l) by (nonlinear_arith);
            assert(gaps(n) == g + 1);
        }
    }
}

/// The height of lines with the leading between them is exact where it and its parts are finite.
pub proof fn lemma_lines_height_exact(frames: Seq<Frame>, leading: Abs)
    requires
        frames.len() <= usize::MAX,
        leading.is_finite(),
        forall|k: int| 0 <= k < frames.len() ==> (#[trigger] frames[k]).height().is_finite(),
        heights(frames).is_finite(),
        leading.times(gaps(frames.len() as int)).is_finite(),
        lines_height(frames, leading).is_finite(),
    ensures
        lines_height(frames, leading).0 == extent_from(frames, 0, leading),
{
    assert(frames.take(frames.len() as int) =~= frames);
    lemma_heights_exact(frames, leading, frames.len() as int);
    assert(leading.0 * 0 == 0);
}

/// A paragraph beside a float whose band does not continue clears the float: below its spacing it
/// takes exactly the height of the band, or that of its lines with the spacing after them if that
/// is more.
pub proof fn law_paragraph_clears_its_float(
    state: DistModel,
    d: DeferredParChild,
    frames: Seq<Frame>,
    plan: WrapPlan,
)
    requires
        0 < frames.len() <= usize::MAX,
        plan.band is None,
        plan.bottom.is_finite(),
        d.elem.leading.is_finite(),
        d.elem.spacing.is_finite(),
        forall|k: int| 0 <= k < frames.len() ==> (#[trigger] frames[k]).height().is_finite(),
        heights(frames).is_finite(),
        d.elem.leading.times(gaps(frames.len() as int)).is_finite(),
        lines_height(frames, d.elem.leading).is_finite(),
        lines_height(frames, d.elem.leading).plus(d.elem.spacing).is_finite(),
        plan.bottom.minus(lines_height(frames, d.elem.leading).plus(d.elem.spacing)).is_finite(),
        state.with_planned_lines(d, frames, plan).1 is Ok,
        state.with_planned_lines(d, frames, plan).0.y().is_finite(),
    ensures
        ({
            let spaced = state.with_cap(plan.cap).with_tags_flushed().with_rel(
                Rel::absolute(d.elem.spacing),
                4,
            );
            let after = state.with_planned_lines(d, frames, plan).0;
            let text = lines_height(frames, d.elem.leading).0 + d.elem.spacing.0;
            spaced.y().0 - after.y().0 == if text < plan.bottom.0 {
                plan.bottom.0 as int
            } else {
                text
            }
        }),
{
    let spaced = state.with_cap(plan.cap).with_tags_flushed().with_rel(
        Rel::absolute(d.elem.spacing),
        4,
    );
    let lines = line_children(frames, d.elem.leading, d.elem.style);
    let (emitted, result) = spaced.with_lines(
        lines,
        0,
        d.elem.leading,
        d.elem.spacing,
        true,
        true,
    );
    assert(line_frames(lines) =~= frames);
    let advanced = lines_height(frames, d.elem.leading).plus(d.elem.spacing);
    if advanced.0 < plan.bottom.0 {
        let gap = plan.bottom.minus(advanced);
        let after = state.with_planned_lines(d, frames, plan).0;
        assert(after.y() == emitted.y().minus(gap));
        lemma_exact(emitted.y(), gap);
    }
    assert forall|k: int| 0 <= k < lines.len() implies (
    #[trigger] lines[k]).frame.height().is_finite() by {
        assert(frames[k].height().is_finite());
    }
    law_lines_take_their_height(
        spaced,
        lines,
        0,
        d.elem.leading,
        d.elem.spacing,
        true,
        true,
    );
    lemma_lines_height_exact(frames, d.elem.leading);
}

/// Lines that are carried on are those from the first one on that has to go to the next region.
proof fn lemma_lines_carried(
    state: DistModel,
    lines: Seq<LineChild>,
    i: int,
    leading: Abs,
    spacing: Abs,
    advance: bool,
    trailing: bool,
)
    requires
        0 <= i <= lines.len(),
        state.composer.work.wrap_spill is None,
        i > 0 ==> state.items.len() > 0 && state.items.last() is Frame,
    ensures
        state.with_lines(
            lines,
            i,
            leading,
            spacing,
            advance,
            trailing,
        ).0.composer.work.wrap_spill matches Some(rest) ==> rest.lines == lines.skip(
            state.regions.first_moved(lines, i, leading),
        ) && i <= state.regions.first_moved(lines, i, leading) < lines.len(),
    decreases lines.len() - i,
{
    if i >= lines.len() {
        lemma_frames_rel(state, Rel::absolute(spacing), 4);
    } else {
        let led = state.with_leading(i, leading);
        lemma_frames_rel(state, Rel::absolute(leading), 5);
        if i > 0 {
            lemma_rel_after_frame(state, leading, 5);
            assert(led.regions == state.regions.with_y(state.y().minus(leading)));
        }
        if !led.line_must_move(lines[i]) {
            lemma_frames_frame(led, lines[i]);
            let (framed, result) = led.with_frame(lines[i].frame, lines[i].align, false, false);
            if result is Ok {
                assert(framed.regions == led.regions.with_y(
                    led.y().minus(lines[i].frame.height()),
                ));
                lemma_lines_carried(framed, lines, i + 1, leading, spacing, advance, trailing);
            }
        }
    }
}

/// Neither redrawing the float nor the tags that wait make a difference to the height that the
/// spacing before a paragraph leaves.
proof fn lemma_spaced_alike(state: DistModel, cap: Option<(Frame, Abs)>, rel: Rel)
    ensures
        state.with_cap(cap).with_tags_flushed().with_rel(rel, 4).regions == state.with_rel(
            rel,
            4,
        ).regions,
{
    let i = last_stop(state.items);
    let capped = state.with_cap(cap);
    let after = capped.with_tags_flushed();
    lemma_last_stop(state.items);
    assert(capped.items.len() == state.items.len());
    assert forall|k: int| 0 <= k < capped.items.len() implies (#[trigger] capped.items[k])
        == state.items[k] || capped.items[k].see_through() && state.items[k].see_through() by {}
    assert forall|k: int| i < k < after.items.len() implies (
    #[trigger] after.items[k]).see_through() by {
        if k < state.items.len() {
            assert(state.items[k].see_through());
            assert(after.items[k] == capped.items[k]);
        }
    }
    if i >= 0 {
        assert(after.items[i] == capped.items[i]);
    }
    lemma_is_last_stop(after.items, i);
}

/// Lines of a paragraph beside a float that are carried to the next region are full-width: a line
/// is narrowed only where it stays with the float. Where one would not, as well as where the lines
/// are not equally high, the whole paragraph goes below the float and is broken at full width.
pub proof fn law_carried_lines_are_full_width(
    state: DistModel,
    d: DeferredParChild,
    setup: WrapSetup,
    frames: Seq<Frame>,
)
    requires
        state.composer.work.wrap_spill is None,
        state.par_lines(d, d.base, Some(d.profile(setup, state.regions.size.x))).1 == Ok::<
            Seq<Frame>,
            StopModel,
        >(frames),
    ensures
        ({
            let profile = d.profile(setup, state.regions.size.x);
            let asked = state.par_lines(d, d.base, Some(profile)).0;
            let after = state.with_wrapped_par(d, setup);
            ||| after == asked.with_wrap_fallback(d, setup.float, setup.side)
            ||| (after.0.composer.work.wrap_spill matches Some(rest) ==> forall|k: usize|
                frames.len() - rest.lines.len() <= k < frames.len() ==> !(
                #[trigger] profile.narrows(k)))
        }),
{
    let leading = d.elem.leading;
    let spacing = Rel::absolute(d.elem.spacing);
    let profile = d.profile(setup, state.regions.size.x);
    let asked = state.par_lines(d, d.base, Some(profile)).0;
    if !pitch_varies(frames, setup.line_height) && !asked.band_straddles(d, setup, frames) {
        let plan = d.plan(setup, frames, asked.continuation_follows());
        let flushed = asked.with_cap(plan.cap).with_tags_flushed();
        let spaced = flushed.with_rel(spacing, 4);
        let lines = line_children(frames, leading, d.elem.style);
        lemma_frames_rel(flushed, spacing, 4);
        lemma_spaced_alike(asked, plan.cap, spacing);
        lemma_lines_carried(
            spaced,
            lines,
            0,
            leading,
            d.elem.spacing,
            true,
            plan.band is None,
        );
    }
}

/// Lines of a continuation paragraph that are carried to the next region are full-width: a line is
/// narrowed only where it stays with the float. Where one would not, as well as where the lines are
/// not equally high, the whole paragraph goes below the band and is broken at full width.
pub proof fn law_carried_continuation_is_full_width(
    state: DistModel,
    d: DeferredParChild,
    band: ActiveBand,
    frames: Seq<Frame>,
)
    requires
        state.band == Some(band),
        state.composer.work.wrap_spill is None,
        state.asked_beside(d, band).1 == Ok::<Seq<Frame>, StopModel>(frames),
    ensures
        ({
            let rest_of_band = band.after_gap();
            let profile = rest_of_band.profile(state.regions.size.x);
            let asked = state.asked_beside(d, band).0;
            let after = state.with_continuation_par(d);
            ||| after == (DistModel { band: None, ..asked }).with_gap(
                rest_of_band.remaining,
            ).with_uniform_par(d)
            ||| (after.0.composer.work.wrap_spill matches Some(rest) ==> forall|k: usize|
                frames.len() - rest.lines.len() <= k < frames.len() ==> !(
                #[trigger] profile.narrows(k)))
        }),
{
    let asked = state.asked_beside(d, band).0;
    let flushed = state.with_tags_flushed();
    lemma_frames_rel(flushed, Rel::absolute(band.gap), 4);
    if !pitch_varies(frames, band.pitch.minus(band.leading)) && !asked.rest_straddles(
        d,
        band.after_gap(),
        frames,
    ) {
        let lines = line_children(par_end_marked(frames), band.leading, d.elem.style);
        lemma_lines_carried(asked, lines, 0, band.leading, d.elem.spacing, true, true);
    }
}

/// A quotient of a product by one of its factors is the other one.
proof fn lemma_scaled_to(height: Abs, target: Abs)
    requires
        height.0 > 0,
        height.is_finite(),
        target.is_finite(),
    ensures
        height.scaled(target, height) == target,
{
    let (h, t) = (height.0 as int, target.0 as int);
    if t != 0 {
        assert(div_trunc(h * t, h) == t) by {
            assert(t >= 0 ==> h * t >= 0 && (h * t) / h == t) by (nonlinear_arith)
                requires
                    h > 0,
            ;
            assert(t < 0 ==> h * t < 0 && (-(h * t)) / h == -t) by (nonlinear_arith)
                requires
                    h > 0,
            ;
        }
    }
}

/// A drop cap registers on its lines: its top is level with the tops of the first line's capitals,
/// and its bottom with the baseline of the last line that it spans.
pub proof fn law_cap_registers_on_its_lines(
    d: DeferredParChild,
    setup: WrapSetup,
    frames: Seq<Frame>,
    n: usize,
    cap: Abs,
    active: bool,
)
    requires
        frames.len() > 0,
        setup.float.height().0 > 0,
        setup.float.height().is_finite(),
        cap.is_finite(),
        frames[0].baseline_or_height().is_finite(),
        frames[0].baseline_or_height().minus(cap).is_finite(),
        ({
            let pitch = setup.line_height.plus(d.elem.leading);
            let span = cap_span(n, frames.len(), active);
            &&& pitch.is_finite()
            &&& pitch.times(gaps(span as int)).is_finite()
            &&& cap_target(pitch, span, cap).is_finite()
        }),
    ensures
        ({
            let pitch = setup.line_height.plus(d.elem.leading);
            let span = cap_span(n, frames.len(), active);
            let baseline = frames[0].baseline_or_height();
            &&& d.cap_plan(setup, frames, n, cap, active).cap matches Some((scaled, y_delta))
            &&& y_delta.0 == baseline.0 - cap.0
            &&& y_delta.0 + scaled.height().0 == baseline.0 + pitch.0 * gaps(span as int)
        }),
{
    let pitch = setup.line_height.plus(d.elem.leading);
    let span = cap_span(n, frames.len(), active);
    lemma_scaled_to(setup.float.height(), cap_target(pitch, span, cap));
    assert(pitch.0 * 0 == 0);
}

/// A drop cap never reserves more lines than it was made for, nor more than the paragraph has
/// unless its band continues. A band that continues is as wide as the one that narrowed the
/// opener.
pub proof fn law_cap_reserves_no_phantom_lines(
    d: DeferredParChild,
    setup: WrapSetup,
    frames: Seq<Frame>,
    n: usize,
    cap: Abs,
    active: bool,
)
    requires
        n >= 1,
        setup.cap == Some((n, cap)),
    ensures
        1 <= cap_span(n, frames.len(), active) <= n,
        !active && frames.len() > 0 ==> cap_span(n, frames.len(), active) <= frames.len(),
        ({
            let plan = d.cap_plan(setup, frames, n, cap, active);
            let pitch = setup.line_height.plus(d.elem.leading);
            &&& plan.bottom == pitch.times(cap_span(n, frames.len(), active))
            &&& plan.band is Some <==> active
            &&& plan.band matches Some(band) ==> band.inset == d.band(setup).inset && band.side
                == setup.side
        }),
{
}

/// A paragraph is only broken beside a float where the whole band fits into what remains of a
/// region of the height that the float was laid out for. Else the float takes up its height, and
/// the paragraph goes below it at full width.
pub proof fn law_wrapping_needs_room(
    state: DistModel,
    d: DeferredParChild,
    float: Frame,
    side: FixedAlignment,
)
    requires
        state.pending == Some((float, side)),
    ensures
        ({
            let taken = DistModel { pending: None, ..state };
            &&& d.cap_lines() is None && !taken.band_fits(d, float.height().plus(d.clearance))
                ==> state.with_deferred_par(d) == taken.with_float_reserved(
                float,
                side,
            ).with_uniform_par(d)
            &&& d.cap_lines() matches Some(n) ==> {
                let (measured, line_height) = taken.line_height_of(d);
                line_height matches Ok(line_height) ==> !measured.band_fits(
                    d,
                    line_height.plus(d.elem.leading).times(n),
                ) ==> state.with_deferred_par(d) == measured.with_float_reserved(
                    float,
                    side,
                ).with_uniform_par(d)
            }
        }),
{
}

/// A paragraph whose lines turn out not to be equally high is not broken beside its float.
pub proof fn law_uneven_lines_do_not_wrap(
    state: DistModel,
    d: DeferredParChild,
    setup: WrapSetup,
    frames: Seq<Frame>,
)
    requires
        state.par_lines(d, d.base, Some(d.profile(setup, state.regions.size.x))).1 == Ok::<
            Seq<Frame>,
            StopModel,
        >(frames),
        pitch_varies(frames, setup.line_height),
    ensures
        state.with_wrapped_par(d, setup) == state.par_lines(
            d,
            d.base,
            Some(d.profile(setup, state.regions.size.x)),
        ).0.with_float_reserved(setup.float, setup.side).with_uniform_par(d),
{
}

/// A deferred paragraph without a float that waits is laid out at full width, like any other.
pub proof fn law_deferred_without_float_is_uniform(state: DistModel, d: DeferredParChild)
    requires
        state.pending is None,
    ensures
        state.with_deferred_par(d) == state.with_uniform_par(d),
{
    assert(DistModel { pending: None, ..state } =~= state);
}

/// The state after all children from index `k` on were processed, without taking them off any
/// work.
pub open spec fn fed(state: DistModel, children: Seq<Child>, k: int) -> (
    DistModel,
    Result<(), StopModel>,
)
    decreases children.len() - k,
{
    if k >= children.len() {
        (state, Ok(()))
    } else {
        match state.with_child(children[k]) {
            (state, Ok(())) => fed(state, children, k + 1),
            (state, Err(stop)) => (state, Err(stop)),
        }
    }
}

/// Whether two ways of adding lines come to the same: they succeed or stop alike, with the same
/// items and the same space left. They may only differ in what is left to do.
pub open spec fn same_end(
    a: (DistModel, Result<(), StopModel>),
    b: (DistModel, Result<(), StopModel>),
) -> bool {
    &&& a.1 == b.1
    &&& a.1 is Ok ==> a.0 == b.0
    &&& a.0 == (DistModel { composer: a.0.composer, ..b.0 })
    &&& a.0.composer.engine == b.0.composer.engine
}

/// The children that lines are collected into, with the spacing after them.
pub open spec fn line_run(lines: Seq<LineChild>, leading: Abs, spacing: Abs) -> Seq<Child> {
    leaded(lines, leading).push(Child::Rel(Rel::absolute(spacing), 4))
}

/// Lines are emitted as if they were collected into children.
proof fn lemma_lines_like_children(
    state: DistModel,
    lines: Seq<LineChild>,
    i: int,
    leading: Abs,
    spacing: Abs,
    advance: bool,
)
    requires
        0 <= i <= lines.len(),
        state.band is None,
    ensures
        same_end(
            state.with_lines(lines, i, leading, spacing, advance, true),
            fed(
                state,
                line_run(lines, leading, spacing),
                if i > 0 {
                    2 * i - 1
                } else {
                    0
                },
            ),
        ),
    decreases lines.len() - i,
{
    let children = line_run(lines, leading, spacing);
    let k = if i > 0 {
        2 * i - 1
    } else {
        0
    };
    if i >= lines.len() {
        assert(children[k] == Child::Rel(Rel::absolute(spacing), 4));
        reveal_with_fuel(fed, 2);
    } else {
        let led = state.with_leading(i, leading);
        assert(children[2 * i] == Child::Line(lines[i])) by {
            assert((2 * i) % 2 == 0 && (2 * i) / 2 == i);
        }
        if i > 0 {
            assert(children[k] == Child::Rel(Rel::absolute(leading), 5));
            assert(fed(state, children, k) == fed(led, children, 2 * i));
        }
        if !led.line_must_move(lines[i]) {
            let (framed, result) = led.with_frame(lines[i].frame, lines[i].align, false, false);
            assert(framed.band is None);
            if result is Ok {
                lemma_lines_like_children(framed, lines, i + 1, leading, spacing, advance);
            }
        }
    }
}

/// A paragraph that was deferred without need collapses spacing and paginates just like one that
/// was collected into lines right away, once the tags that wait are out.
pub proof fn law_needless_deferral_changes_nothing(
    state: DistModel,
    d: DeferredParChild,
    frames: Seq<Frame>,
)
    requires
        state.band is None,
        state.par_lines(d, d.base, None).1 == Ok::<Seq<Frame>, StopModel>(frames),
    ensures
        ({
            let asked = state.par_lines(d, d.base, None).0;
            let spacing = Child::Rel(Rel::absolute(d.elem.spacing), 4);
            let lines = line_children(par_end_marked(frames), d.elem.leading, d.elem.style);
            same_end(
                state.with_uniform_par(d),
                fed(
                    asked.with_tags_flushed(),
                    seq![spacing] + line_run(lines, d.elem.leading, d.elem.spacing),
                    0,
                ),
            )
        }),
{
    let asked = state.par_lines(d, d.base, None).0;
    let flushed = asked.with_tags_flushed();
    let spacing = Child::Rel(Rel::absolute(d.elem.spacing), 4);
    let lines = line_children(par_end_marked(frames), d.elem.leading, d.elem.style);
    let run = line_run(lines, d.elem.leading, d.elem.spacing);
    let spaced = flushed.with_rel(Rel::absolute(d.elem.spacing), 4);
    lemma_lines_like_children(spaced, lines, 0, d.elem.leading, d.elem.spacing, true);
    assert((seq![spacing] + run)[0] == spacing);
    lemma_fed_shifted(spaced, seq![spacing], run, 0);
    assert(fed(flushed, seq![spacing] + run, 0) == fed(spaced, seq![spacing] + run, 1));
}

/// Children before the first one that is processed do not matter.
proof fn lemma_fed_shifted(state: DistModel, before: Seq<Child>, children: Seq<Child>, k: int)
    requires
        0 <= k <= children.len(),
    ensures
        fed(state, before + children, before.len() + k) == fed(state, children, k),
    decreases children.len() - k,
{
    if k < children.len() {
        assert((before + children)[before.len() + k] == children[k]);
        let (next, result) = state.with_child(children[k]);
        if result is Ok {
            lemma_fed_shifted(next, before, children, k + 1);
        }
    }
}

/// A live band that a child does not continue is cleared: the child comes below what is left of
/// the band, as after strong spacing of that height.
pub proof fn law_live_band_is_cleared(state: DistModel, child: Child, band: ActiveBand)
    requires
        state.band == Some(band),
        !(child is Tag),
        !(child matches Child::Deferred(d) && d.continuation),
    ensures
        state.with_child(child) == (DistModel { band: None, ..state }).with_gap(
            band.remaining,
        ).with_child(child),
{
}

} // verus!
