//! Laws of the space that a region's items take up.
use vstd::prelude::*;

use crate::child::{Child, DeferredParChild, LineChild, MultiChild, PlacedChild, SingleChild};
use crate::distribute::wrapped::{lines_height, pitch_varies, WrapPlan, WrapSetup};
use crate::distribute::{ActiveBand, DistModel};
use crate::engine::RequestModel;
use crate::frame::{par_end_marked, Frame, Tag};
use crate::geom::{Abs, Axes, FixedAlignment, Fr, Rel};
use crate::item::{last_fr_stop, last_stop, Item};
use crate::laws::items::{lemma_is_last_stop, lemma_last_fr_stop, lemma_last_stop};
use crate::laws::paragraphs::lemma_absolute;
use crate::lines::line_children;
use crate::region::Region;
use crate::work::WorkModel;

verus! {

/// The height that an item takes up at once, in raw units. Fractions get theirs at the end.
pub open spec fn taken_by(item: Item) -> int {
    match item {
        Item::Abs(amount, _) => amount.0 as int,
        Item::Frame(frame, _) => frame.height().0 as int,
        _ => 0,
    }
}

/// The height that the items take up at once, in raw units.
pub open spec fn occupied(items: Seq<Item>) -> int
    decreases items.len(),
{
    if items.len() == 0 {
        0
    } else {
        occupied(items.drop_last()) + taken_by(items.last())
    }
}

/// The height that remains in the region and that the items take up, in raw units.
pub open spec fn space(state: DistModel) -> int {
    state.y().0 + occupied(state.items)
}

/// Whether a step takes exactly as much from the region as it adds in items, as long as what
/// remains is finite.
pub open spec fn balanced(before: DistModel, after: DistModel) -> bool {
    before.y().is_finite() && after.y().is_finite() ==> space(after) == space(before)
}

/// An item that is added takes up its height.
pub proof fn lemma_occupied_pushed(items: Seq<Item>, item: Item)
    ensures
        occupied(items.push(item)) == occupied(items) + taken_by(item),
{
    assert(items.push(item).drop_last() =~= items);
}

/// Items for tags take up nothing.
proof fn lemma_occupied_tags(items: Seq<Item>, tags: Seq<Tag>)
    ensures
        occupied(items + tags.map_values(|tag: Tag| Item::Tag(tag))) == occupied(items),
    decreases tags.len(),
{
    let added = tags.map_values(|tag: Tag| Item::Tag(tag));
    if tags.len() == 0 {
        assert(items + added =~= items);
    } else {
        let front = tags.drop_last();
        lemma_occupied_tags(items, front);
        assert((items + added).drop_last() =~= items + front.map_values(
            |tag: Tag| Item::Tag(tag),
        ));
    }
}

/// An item that is replaced gives back its height.
proof fn lemma_occupied_replaced(items: Seq<Item>, i: int, item: Item)
    requires
        0 <= i < items.len(),
    ensures
        occupied(items.update(i, item)) == occupied(items) - taken_by(items[i]) + taken_by(item),
    decreases items.len(),
{
    let after = items.update(i, item);
    if i == items.len() - 1 {
        assert(after.drop_last() =~= items.drop_last());
    } else {
        assert(after.drop_last() =~= items.drop_last().update(i, item));
        lemma_occupied_replaced(items.drop_last(), i, item);
    }
}

/// An item that is removed gives back its height.
proof fn lemma_occupied_removed(items: Seq<Item>, i: int)
    requires
        0 <= i < items.len(),
    ensures
        occupied(items.remove(i)) == occupied(items) - taken_by(items[i]),
    decreases items.len(),
{
    let after = items.remove(i);
    if i == items.len() - 1 {
        assert(after =~= items.drop_last());
    } else {
        assert(after.drop_last() =~= items.drop_last().remove(i));
        lemma_occupied_removed(items.drop_last(), i);
    }
}

/// Spacing takes exactly as much from the region as it adds, also where it collapses with other
/// spacing, and gives it back where it is trimmed.
pub proof fn law_spacing_is_balanced(state: DistModel, rel: Rel, fr: Fr, weakness: u8)
    ensures
        balanced(state, state.with_rel(rel, weakness)),
        balanced(state, state.with_fr(fr, weakness)),
        balanced(state, state.trimmed()),
{
    let amount = rel.relative_to(state.regions.full);
    let item = Item::Abs(amount, weakness);
    lemma_last_stop(state.items);
    lemma_last_fr_stop(state.items);
    let i = last_stop(state.items);
    let j = last_fr_stop(state.items);
    lemma_occupied_pushed(state.items, item);
    lemma_occupied_pushed(state.trimmed().items, Item::Fr(fr, weakness, None));
    if i >= 0 {
        lemma_occupied_replaced(state.items, i, item);
        lemma_occupied_removed(state.items, i);
    }
    if j >= 0 {
        lemma_occupied_replaced(state.items, j, Item::Fr(fr, weakness, None));
    }
}

/// Strong spacing takes exactly as much from the region as it adds.
pub proof fn law_gap_is_balanced(state: DistModel, gap: Abs)
    ensures
        balanced(state, state.with_gap(gap)),
{
    lemma_occupied_pushed(state.items, Item::Abs(gap, 0));
}

/// A frame takes exactly its height from the region.
pub proof fn law_frame_is_balanced(
    state: DistModel,
    frame: Frame,
    align: Axes<FixedAlignment>,
    sticky: bool,
    breakable: bool,
)
    ensures
        balanced(state, state.with_frame_item(frame, align)),
        balanced(state, state.with_frame(frame, align, sticky, breakable).0),
        balanced(state, state.with_float_reserved(frame, align.x)),
{
    let tags = state.composer.work.tags;
    lemma_occupied_tags(state.items, tags);
    let flushed = state.items + tags.map_values(|tag: Tag| Item::Tag(tag));
    lemma_occupied_pushed(flushed, Item::Frame(frame, align));
    let noted = state.with_stickiness(frame, sticky).with_footnotes(
        frame,
        frame.height(),
        breakable,
    );
    assert(noted.0.items == state.items);
    assert(noted.0.composer.work.tags == tags);
    if state.items.len() > 0 && state.items.last() is WrapFloat {
        lemma_occupied_pushed(
            state.items.drop_last(),
            Item::Frame(frame, Axes { x: align.x, y: FixedAlignment::Start }),
        );
    }
}

/// Whether twice the length is finite, and so the difference to any other such length.
pub open spec fn modest(length: Abs) -> bool {
    length.is_finite() && length.plus(length).is_finite()
}

/// Whether the height that an item takes up at once is finite.
pub open spec fn is_bounded(item: Item) -> bool {
    match item {
        Item::Abs(amount, _) => amount.is_finite(),
        Item::Frame(frame, _) => frame.height().is_finite(),
        _ => true,
    }
}

/// Whether the heights that the items take up at once are finite.
pub open spec fn all_bounded(items: Seq<Item>) -> bool {
    forall|i: int| 0 <= i < items.len() ==> is_bounded(#[trigger] items[i])
}

/// Whether a step changes nothing of the regions but what remains of the first one, and takes
/// exactly as much from that as it adds in items, as long as the heights of all items are finite
/// after it. They then were before it, too. Of an infinite height, as much remains.
pub open spec fn conserved(before: DistModel, after: DistModel) -> bool {
    &&& after.regions == before.regions.with_y(after.y())
    &&& all_bounded(after.items) ==> {
        &&& all_bounded(before.items)
        &&& !before.y().is_finite() ==> after.y() == before.y()
        &&& after.y().is_finite() ==> space(after) == space(before)
    }
}

/// Items that are continued had finite heights if they have now.
proof fn lemma_bounded_front(before: Seq<Item>, after: Seq<Item>)
    requires
        before.len() <= after.len(),
        forall|k: int| 0 <= k < before.len() ==> #[trigger] before[k] == after[k],
        all_bounded(after),
    ensures
        all_bounded(before),
{
    assert forall|k: int| 0 <= k < before.len() implies is_bounded(#[trigger] before[k]) by {
        assert(is_bounded(after[k]));
    }
}

/// Relative spacing conserves space. Weak spacing at the end stays modest.
proof fn lemma_rel_conserves(state: DistModel, rel: Rel, weakness: u8)
    requires
        modest(rel.relative_to(state.regions.full)),
        modest(state.trailing()),
    ensures
        conserved(state, state.with_rel(rel, weakness)),
        modest(state.with_rel(rel, weakness).trailing()),
{
    let amount = rel.relative_to(state.regions.full);
    let item = Item::Abs(amount, weakness);
    let after = state.with_rel(rel, weakness);
    let i = last_stop(state.items);
    law_spacing_is_balanced(state, rel, Fr(0), weakness);
    lemma_last_stop(state.items);
    if after.items == state.items.push(item) {
        assert(after.items.drop_last() =~= state.items);
        if all_bounded(after.items) {
            lemma_bounded_front(state.items, after.items);
            assert(is_bounded(after.items.last()));
        }
    } else if i >= 0 && after.items == state.items.update(i, item) {
        assert forall|k: int| i < k < after.items.len() implies (
        #[trigger] after.items[k]).see_through() by {
            assert(state.items[k].see_through());
        }
        if weakness > 0 {
            lemma_is_last_stop(after.items, i);
        }
        if all_bounded(after.items) {
            assert forall|k: int| 0 <= k < state.items.len() implies is_bounded(
                #[trigger] state.items[k],
            ) by {
                if k != i {
                    assert(is_bounded(after.items[k]));
                }
            }
        }
    }
}

/// Fractional spacing conserves space.
proof fn lemma_fr_conserves(state: DistModel, fr: Fr, weakness: u8)
    requires
        modest(state.trailing()),
    ensures
        conserved(state, state.with_fr(fr, weakness)),
{
    let after = state.with_fr(fr, weakness);
    let i = last_stop(state.items);
    let j = last_fr_stop(state.items);
    law_spacing_is_balanced(state, Rel::absolute(Abs(0)), fr, weakness);
    lemma_last_stop(state.items);
    lemma_last_fr_stop(state.items);
    if all_bounded(after.items) {
        assert forall|k: int| 0 <= k < state.items.len() implies is_bounded(
            #[trigger] state.items[k],
        ) by {
            if after.items == state.trimmed().items.push(Item::Fr(fr, weakness, None)) {
                if state.trimmed().items == state.items {
                    assert(is_bounded(after.items[k]));
                } else if k < i {
                    assert(is_bounded(after.items[k]));
                } else if k > i {
                    assert(is_bounded(after.items[k - 1]));
                }
            } else if k != j {
                assert(is_bounded(after.items[k]));
            }
        }
    }
}

/// Strong spacing conserves space.
proof fn lemma_gap_conserves(state: DistModel, gap: Abs)
    ensures
        conserved(state, state.with_gap(gap)),
        state.with_gap(gap).trailing() == state.trailing(),
{
    let after = state.with_gap(gap);
    law_gap_is_balanced(state, gap);
    assert(after.items.drop_last() =~= state.items);
    lemma_last_stop(state.items);
    if all_bounded(after.items) {
        lemma_bounded_front(state.items, after.items);
        assert(is_bounded(after.items.last()));
    }
}

/// The tags that wait conserve space when they come out.
proof fn lemma_tags_conserve(state: DistModel)
    ensures
        conserved(state, state.with_tags_flushed()),
        state.with_tags_flushed().trailing() == state.trailing(),
        state.with_tags_flushed().y() == state.y(),
{
    let tags = state.composer.work.tags;
    let after = state.with_tags_flushed();
    lemma_occupied_tags(state.items, tags);
    lemma_last_stop(state.items);
    let i = last_stop(state.items);
    assert forall|k: int| i < k < after.items.len() implies (
    #[trigger] after.items[k]).see_through() by {
        if k < state.items.len() {
            assert(state.items[k].see_through());
        }
    }
    lemma_is_last_stop(after.items, i);
    if all_bounded(after.items) {
        lemma_bounded_front(state.items, after.items);
    }
}

/// A frame conserves space. No weak spacing is at the end then.
proof fn lemma_frame_conserves(
    state: DistModel,
    frame: Frame,
    align: Axes<FixedAlignment>,
    sticky: bool,
    breakable: bool,
)
    requires
        state.with_frame(frame, align, sticky, breakable).1 is Ok,
    ensures
        conserved(state, state.with_frame(frame, align, sticky, breakable).0),
        state.with_frame(frame, align, sticky, breakable).0.trailing() == Abs(0),
{
    let after = state.with_frame(frame, align, sticky, breakable).0;
    let tags = state.composer.work.tags;
    let noted = state.with_stickiness(frame, sticky).with_footnotes(
        frame,
        frame.height(),
        breakable,
    );
    assert(noted.0.items == state.items);
    assert(noted.0.composer.work.tags == tags);
    law_frame_is_balanced(state, frame, align, sticky, breakable);
    let flushed = state.items + tags.map_values(|tag: Tag| Item::Tag(tag));
    assert(after.items == flushed.push(Item::Frame(frame, align)));
    if all_bounded(after.items) {
        lemma_bounded_front(state.items, after.items);
        assert(is_bounded(after.items.last()));
    }
}

/// A float that is turned into a frame conserves space.
proof fn lemma_float_conserves(state: DistModel, frame: Frame, side: FixedAlignment)
    requires
        modest(state.trailing()),
    ensures
        conserved(state, state.with_float_reserved(frame, side)),
        modest(state.with_float_reserved(frame, side).trailing()),
{
    let after = state.with_float_reserved(frame, side);
    law_frame_is_balanced(
        state,
        frame,
        Axes { x: side, y: FixedAlignment::Start },
        false,
        false,
    );
    if all_bounded(after.items) && state.items.len() > 0 && state.items.last() is WrapFloat {
        assert(is_bounded(after.items.last()));
        assert forall|k: int| 0 <= k < state.items.len() implies is_bounded(
            #[trigger] state.items[k],
        ) by {
            if k < state.items.len() - 1 {
                assert(is_bounded(after.items[k]));
            }
        }
    }
}

/// A float that is redrawn as a drop cap conserves space.
proof fn lemma_cap_conserves(state: DistModel, cap: Option<(Frame, Abs)>)
    ensures
        conserved(state, state.with_cap(cap)),
        state.with_cap(cap).trailing() == state.trailing(),
{
    let after = state.with_cap(cap);
    if let Some((scaled, y_delta)) = cap {
        if state.items.len() > 0 {
            if let Item::WrapFloat(_, side, _) = state.items.last() {
                let front = state.items.drop_last();
                lemma_occupied_pushed(front, Item::WrapFloat(scaled, side, y_delta));
                assert(after.items.drop_last() =~= front);
                lemma_last_stop(front);
                if all_bounded(after.items) {
                    assert forall|k: int| 0 <= k < state.items.len() implies is_bounded(
                        #[trigger] state.items[k],
                    ) by {
                        assert(is_bounded(after.items[k]));
                    }
                }
            }
        }
    }
}

/// Lines that are emitted conserve space.
proof fn lemma_lines_conserve(
    state: DistModel,
    lines: Seq<LineChild>,
    i: int,
    leading: Abs,
    spacing: Abs,
    advance: bool,
    trailing: bool,
)
    requires
        0 <= i <= lines.len(),
        modest(leading),
        modest(spacing),
        modest(state.trailing()),
        state.with_lines(lines, i, leading, spacing, advance, trailing).1 is Ok,
    ensures
        conserved(state, state.with_lines(lines, i, leading, spacing, advance, trailing).0),
    decreases lines.len() - i,
{
    if i >= lines.len() {
        lemma_absolute(spacing, state.regions.full);
        lemma_rel_conserves(state, Rel::absolute(spacing), 4);
    } else {
        let led = state.with_leading(i, leading);
        lemma_absolute(leading, state.regions.full);
        lemma_rel_conserves(state, Rel::absolute(leading), 5);
        let line = lines[i];
        lemma_frame_conserves(led, line.frame, line.align, false, false);
        let framed = led.with_frame(line.frame, line.align, false, false).0;
        lemma_lines_conserve(framed, lines, i + 1, leading, spacing, advance, trailing);
    }
}

/// A deferred paragraph at full width conserves space.
proof fn lemma_uniform_par_conserves(state: DistModel, d: DeferredParChild)
    requires
        modest(d.elem.leading),
        modest(d.elem.spacing),
        modest(state.trailing()),
        state.with_uniform_par(d).1 is Ok,
    ensures
        conserved(state, state.with_uniform_par(d).0),
{
    let (asked, answer) = state.par_lines(d, d.base, None);
    if let Ok(frames) = answer {
        let flushed = asked.with_tags_flushed();
        let spaced = flushed.with_rel(Rel::absolute(d.elem.spacing), 4);
        let lines = line_children(par_end_marked(frames), d.elem.leading, d.elem.style);
        lemma_tags_conserve(asked);
        lemma_absolute(d.elem.spacing, flushed.regions.full);
        lemma_rel_conserves(flushed, Rel::absolute(d.elem.spacing), 4);
        lemma_lines_conserve(spaced, lines, 0, d.elem.leading, d.elem.spacing, true, true);
    }
}

/// A paragraph below a float that it does not wrap around conserves space.
proof fn lemma_fallback_conserves(
    state: DistModel,
    d: DeferredParChild,
    frame: Frame,
    side: FixedAlignment,
)
    requires
        modest(d.elem.leading),
        modest(d.elem.spacing),
        modest(state.trailing()),
        state.with_wrap_fallback(d, frame, side).1 is Ok,
    ensures
        conserved(state, state.with_wrap_fallback(d, frame, side).0),
{
    lemma_float_conserves(state, frame, side);
    lemma_uniform_par_conserves(state.with_float_reserved(frame, side), d);
}

/// A paragraph beside a float conserves space, whether its band continues or not.
proof fn lemma_planned_lines_conserve(
    state: DistModel,
    d: DeferredParChild,
    frames: Seq<Frame>,
    plan: WrapPlan,
)
    requires
        modest(d.elem.leading),
        modest(d.elem.spacing),
        modest(state.trailing()),
        state.with_planned_lines(d, frames, plan).1 is Ok,
    ensures
        conserved(state, state.with_planned_lines(d, frames, plan).0),
{
    let capped = state.with_cap(plan.cap);
    let flushed = capped.with_tags_flushed();
    let spaced = flushed.with_rel(Rel::absolute(d.elem.spacing), 4);
    let lines = line_children(frames, d.elem.leading, d.elem.style);
    let trailing = plan.band is None;
    let emitted = spaced.with_lines(lines, 0, d.elem.leading, d.elem.spacing, true, trailing).0;
    lemma_cap_conserves(state, plan.cap);
    lemma_tags_conserve(capped);
    lemma_absolute(d.elem.spacing, flushed.regions.full);
    lemma_rel_conserves(flushed, Rel::absolute(d.elem.spacing), 4);
    lemma_lines_conserve(spaced, lines, 0, d.elem.leading, d.elem.spacing, true, trailing);
    let advanced = lines_height(frames, d.elem.leading).plus(d.elem.spacing);
    lemma_gap_conserves(emitted, plan.bottom.minus(advanced));
}

/// A paragraph that may wrap around a float conserves space.
proof fn lemma_wrapped_par_conserves(state: DistModel, d: DeferredParChild, setup: WrapSetup)
    requires
        modest(d.elem.leading),
        modest(d.elem.spacing),
        modest(state.trailing()),
        state.with_wrapped_par(d, setup).1 is Ok,
    ensures
        conserved(state, state.with_wrapped_par(d, setup).0),
{
    let profile = d.profile(setup, state.regions.size.x);
    let (asked, answer) = state.par_lines(d, d.base, Some(profile));
    if let Ok(frames) = answer {
        if pitch_varies(frames, setup.line_height) || asked.band_straddles(d, setup, frames) {
            lemma_fallback_conserves(asked, d, setup.float, setup.side);
        } else {
            lemma_planned_lines_conserve(
                asked,
                d,
                frames,
                d.plan(setup, frames, asked.continuation_follows()),
            );
        }
    }
}

/// A deferred paragraph that does not continue a band conserves space.
proof fn lemma_deferred_par_conserves(state: DistModel, d: DeferredParChild)
    requires
        modest(d.elem.leading),
        modest(d.elem.spacing),
        modest(state.trailing()),
        state.with_deferred_par(d).1 is Ok,
    ensures
        conserved(state, state.with_deferred_par(d).0),
{
    let start = DistModel { pending: None, ..state };
    match state.pending {
        None => {
            lemma_uniform_par_conserves(start, d);
        },
        Some((float, side)) => {
            let (measured, line_height) = start.line_height_of(d);
            match d.cap_lines() {
                Some(n) => {
                    if let Ok(line_height) = line_height {
                        if !measured.band_fits(d, d.band_bottom(float, Some(n), line_height)) {
                            lemma_fallback_conserves(measured, d, float, side);
                        } else {
                            let (asked, cap) = measured.cap_height_of(d);
                            if let Ok(cap) = cap {
                                lemma_wrapped_par_conserves(
                                    asked,
                                    d,
                                    WrapSetup { float, side, cap: Some((n, cap)), line_height },
                                );
                            }
                        }
                    }
                },
                None => {
                    if !start.band_fits(d, d.band_bottom(float, None, Abs(0))) {
                        lemma_fallback_conserves(start, d, float, side);
                    } else if let Ok(line_height) = line_height {
                        lemma_wrapped_par_conserves(
                            measured,
                            d,
                            WrapSetup { float, side, cap: None, line_height },
                        );
                    }
                },
            }
        },
    }
}

/// A continuation paragraph conserves space.
proof fn lemma_continuation_par_conserves(state: DistModel, d: DeferredParChild, band: ActiveBand)
    requires
        state.band == Some(band),
        modest(band.gap),
        modest(band.leading),
        modest(d.elem.leading),
        modest(d.elem.spacing),
        modest(state.trailing()),
        state.with_continuation_par(d).1 is Ok,
    ensures
        conserved(state, state.with_continuation_par(d).0),
{
    let flushed = state.with_tags_flushed();
    let (asked, answer) = state.asked_beside(d, band);
    lemma_tags_conserve(state);
    lemma_absolute(band.gap, flushed.regions.full);
    lemma_rel_conserves(flushed, Rel::absolute(band.gap), 4);
    if let Ok(frames) = answer {
        if pitch_varies(frames, band.pitch.minus(band.leading)) || asked.rest_straddles(
            d,
            band.after_gap(),
            frames,
        ) {
            let cleared = DistModel { band: None, ..asked };
            let remaining = band.after_gap().remaining;
            lemma_gap_conserves(cleared, remaining);
            lemma_uniform_par_conserves(cleared.with_gap(remaining), d);
        } else {
            let lines = line_children(par_end_marked(frames), band.leading, d.elem.style);
            lemma_lines_conserve(asked, lines, 0, band.leading, d.elem.spacing, true, true);
        }
    }
}

/// An unbreakable block conserves space.
proof fn lemma_single_conserves(state: DistModel, single: SingleChild)
    requires
        state.with_single(single).1 is Ok,
    ensures
        conserved(state, state.with_single(single).0),
{
    let region = Region { size: state.regions.base(), expand: state.regions.expand };
    let (engine, laid_out) = state.composer.engine.ask_frame(
        RequestModel::Single { single, region: single.pod(region) },
    );
    let asked = state.with_engine(engine);
    let after = state.with_single(single).0;
    if let Ok(frame) = laid_out {
        if let Some(fr) = single.fr {
            let noted = asked.with_footnotes(frame, Abs(0), false).0;
            let flushed = noted.with_tags_flushed();
            lemma_tags_conserve(noted);
            lemma_occupied_pushed(flushed.items, Item::Fr(fr, 0, Some(single)));
            if all_bounded(after.items) {
                lemma_bounded_front(flushed.items, after.items);
            }
        } else {
            lemma_frame_conserves(asked, frame, single.align, single.sticky, false);
        }
    }
}

/// A breakable block conserves space.
proof fn lemma_multi_conserves(state: DistModel, multi: MultiChild)
    requires
        state.with_multi(multi).1 is Ok,
    ensures
        conserved(state, state.with_multi(multi).0),
{
    let (engine, laid_out) = multi.laid_out(state.composer.engine, state.regions);
    if let Ok((frame, spill)) = laid_out {
        lemma_frame_conserves(
            state.with_engine(engine),
            frame,
            multi.align,
            multi.sticky,
            true,
        );
    }
}

/// A placed child conserves space.
proof fn lemma_placed_conserves(state: DistModel, placed: PlacedChild)
    requires
        modest(state.trailing()),
        state.with_placed(placed).1 is Ok,
    ensures
        conserved(state, state.with_placed(placed).0),
{
    if !(placed.float && !placed.wrap) {
        let (engine, laid_out) = placed.laid_out(state.composer.engine, state.regions.base());
        let asked = state.with_engine(engine);
        let after = state.with_placed(placed).0;
        if let Ok(frame) = laid_out {
            let noted = if placed.float {
                asked.without_stickiness(frame).with_footnotes(frame, frame.height(), true).0
            } else {
                asked.with_footnotes(frame, Abs(0), true).0
            };
            let flushed = noted.with_tags_flushed();
            lemma_tags_conserve(noted);
            lemma_occupied_pushed(flushed.items, Item::Placed(frame, placed));
            lemma_occupied_pushed(
                flushed.items,
                Item::WrapFloat(frame, placed.align_x, Abs(0)),
            );
            let align = Axes { x: placed.align_x, y: FixedAlignment::Start };
            lemma_occupied_pushed(flushed.items, Item::Frame(frame, align));
            if all_bounded(after.items) {
                lemma_bounded_front(flushed.items, after.items);
                assert(is_bounded(after.items.last()));
            }
        }
    }
}

/// Whether the lengths that a child brings along are modest.
pub open spec fn child_modest(state: DistModel, child: Child) -> bool {
    match child {
        Child::Rel(amount, _) => modest(amount.relative_to(state.regions.full)),
        Child::Deferred(d) => modest(d.elem.leading) && modest(d.elem.spacing),
        _ => true,
    }
}

/// The region shrinks by exactly what its items take up: each child that does not stop the
/// distribution takes as much from the region as it adds in items. That includes a paragraph
/// without lines, and what is left of a live band where the child clears it. A region of infinite
/// height does not shrink. The width, the full height and the regions that follow stay as they are.
///
/// The heights of all items must be finite after the child, and so must be what remains then of a
/// finite region. The lengths that the child may collapse with one another (its spacing, that at
/// the end of the items and that of a live band) must be so modest that their differences are
/// finite, too.
pub proof fn law_child_is_balanced(state: DistModel, child: Child)
    requires
        modest(state.trailing()),
        state.band matches Some(band) ==> modest(band.gap) && modest(band.leading),
        child_modest(state, child),
        state.with_child(child).1 is Ok,
    ensures
        conserved(state, state.with_child(child).0),
{
    let cleared = state.with_band_cleared(child);
    if let Some(band) = state.band {
        lemma_gap_conserves(DistModel { band: None, ..state }, band.remaining);
    }
    match child {
        Child::Rel(amount, weakness) => {
            lemma_rel_conserves(cleared, amount, weakness);
        },
        Child::Fr(fr, weakness) => {
            lemma_fr_conserves(cleared, fr, weakness);
        },
        Child::Line(line) => {
            lemma_frame_conserves(cleared, line.frame, line.align, false, false);
        },
        Child::Single(single) => {
            lemma_single_conserves(cleared, single);
        },
        Child::Multi(multi) => {
            lemma_multi_conserves(cleared, multi);
        },
        Child::Placed(placed) => {
            lemma_placed_conserves(cleared, placed);
        },
        Child::Deferred(d) => {
            if d.continuation && cleared.band is Some {
                lemma_continuation_par_conserves(cleared, d, cleared.band.unwrap());
            } else {
                lemma_deferred_par_conserves(cleared, d);
            }
        },
        _ => {},
    }
}

/// What is carried over from the previous region takes as much from the region as it adds in items,
/// unless it stops the distribution.
pub proof fn law_carried_content_is_balanced(state: DistModel)
    requires
        modest(state.trailing()),
        state.composer.work.wrap_spill matches Some(spill) ==> modest(spill.leading) && modest(
            spill.spacing,
        ),
    ensures
        state.with_block_resumed().1 is Ok ==> conserved(state, state.with_block_resumed().0),
        state.with_par_resumed().1 is Ok ==> conserved(state, state.with_par_resumed().0),
{
    if let Some(spill) = state.composer.work.spill {
        let start = state.with_spill(None);
        let (engine, laid_out) = spill.laid_out(start.composer.engine, start.regions);
        if state.with_block_resumed().1 is Ok {
            if let Ok((frame, rest)) = laid_out {
                lemma_frame_conserves(
                    start.with_engine(engine),
                    frame,
                    spill.multi.align,
                    false,
                    true,
                );
            }
        }
    }
    if let Some(spill) = state.composer.work.wrap_spill {
        if state.with_par_resumed().1 is Ok {
            let start = state.with_work(WorkModel { wrap_spill: None, ..state.composer.work });
            lemma_lines_conserve(
                start,
                spill.lines,
                0,
                spill.leading,
                spill.spacing,
                false,
                true,
            );
        }
    }
}

/// Trimming undoes weak spacing that was added after a frame: items and space are as before.
pub proof fn law_trimming_undoes_weak_spacing(state: DistModel, amount: Abs, weakness: u8)
    requires
        weakness > 0,
        state.items.len() > 0,
        state.items.last() is Frame,
        amount.is_finite(),
        state.y().is_finite(),
        state.y().minus(amount).is_finite(),
    ensures
        state.with_rel(Rel::absolute(amount), weakness).trimmed() == state,
{
    lemma_absolute(amount, state.regions.full);
    let item = Item::Abs(amount, weakness);
    assert(last_stop(state.items) == state.items.len() - 1);
    let spaced = state.with_rel(Rel::absolute(amount), weakness);
    assert(spaced.items == state.items.push(item));
    assert(last_stop(spaced.items) == state.items.len());
    assert(spaced.items.remove(state.items.len() as int) =~= state.items);
    assert(spaced.trimmed() =~= state);
}

/// Nothing moves on to the next region in vain: where that region is no higher or lower than what
/// remains of this one, and none but it follows, a line stays however high it is, the region does
/// not count as full, and a group of sticky blocks that starts there does not stick.
pub proof fn law_nothing_moves_on_in_vain(state: DistModel, line: LineChild, frame: Frame)
    requires
        !state.regions.may_progress(),
    ensures
        !state.line_must_move(line),
        !state.regions.is_full(),
        state.sticky is None && state.stickable is None ==> state.with_stickiness(
            frame,
            true,
        ).sticky is None,
{
}

/// With relative spacings, one after the other.
pub open spec fn with_rels(state: DistModel, rels: Seq<(Rel, u8)>) -> DistModel
    decreases rels.len(),
{
    if rels.len() == 0 {
        state
    } else {
        with_rels(state, rels.drop_last()).with_rel(rels.last().0, rels.last().1)
    }
}

/// Whether spacing is one of the given ones, of the least weakness, and of the largest amount of
/// that weakness.
pub open spec fn prevails(amount: Abs, weakness: u8, rels: Seq<(Rel, u8)>, full: Abs) -> bool {
    &&& exists|k: int|
        0 <= k < rels.len() && (#[trigger] rels[k]).0.relative_to(full) == amount && rels[k].1
            == weakness
    &&& forall|k: int|
        0 <= k < rels.len() ==> weakness <= (#[trigger] rels[k]).1 && (rels[k].1 == weakness
            ==> rels[k].0.relative_to(full).0 <= amount.0)
}

/// Of any number of weak relative spacings after a frame, one is left: one of the least weakness,
/// of the largest amount of that weakness. Exactly that much is taken from the region.
pub proof fn law_strongest_spacing_prevails(state: DistModel, rels: Seq<(Rel, u8)>)
    requires
        state.items.len() > 0,
        state.items.last() is Frame,
        rels.len() > 0,
        forall|k: int|
            0 <= k < rels.len() ==> (#[trigger] rels[k]).1 > 0 && modest(
                rels[k].0.relative_to(state.regions.full),
            ),
    ensures
        ({
            let after = with_rels(state, rels);
            after.items.last() matches Item::Abs(amount, weakness) && {
                &&& after.items == state.items.push(Item::Abs(amount, weakness))
                &&& prevails(amount, weakness, rels, state.regions.full)
                &&& after.regions == state.regions.with_y(after.y())
                &&& !state.y().is_finite() ==> after.y() == state.y()
                &&& after.y().is_finite() ==> after.y().0 == state.y().0 - amount.0
            }
        }),
    decreases rels.len(),
{
    let full = state.regions.full;
    let front = rels.drop_last();
    let before = with_rels(state, front);
    let (rel, weakness) = rels.last();
    let amount = rel.relative_to(full);
    let item = Item::Abs(amount, weakness);
    let after = with_rels(state, rels);
    let n = state.items.len() as int;
    assert(rels[rels.len() - 1] == rels.last());
    assert(last_stop(state.items) == n - 1);
    if front.len() == 0 {
        assert(before == state);
        assert(after.items == state.items.push(item));
    } else {
        assert forall|k: int| 0 <= k < front.len() implies (#[trigger] front[k]).1 > 0 && modest(
            front[k].0.relative_to(full),
        ) by {
            assert(front[k] == rels[k]);
        }
        law_strongest_spacing_prevails(state, front);
        if let Item::Abs(prev, prev_weakness) = before.items.last() {
            let j = choose|j: int|
                0 <= j < front.len() && (#[trigger] front[j]).0.relative_to(full) == prev
                    && front[j].1 == prev_weakness;
            assert(rels[j] == front[j]);
            assert(last_stop(before.items) == n);
            assert(before.items.update(n, item) =~= state.items.push(item));
            assert forall|k: int| 0 <= k < rels.len() implies rels[k] == (if k < front.len() {
                front[k]
            } else {
                rels.last()
            }) by {}
        }
    }
}

/// Neither the order of weak relative spacings after a frame nor how often each one comes matters:
/// the same one is left of them, and as much remains.
pub proof fn law_order_of_weak_spacing_is_irrelevant(
    state: DistModel,
    rels: Seq<(Rel, u8)>,
    others: Seq<(Rel, u8)>,
)
    requires
        state.items.len() > 0,
        state.items.last() is Frame,
        rels.len() > 0,
        forall|rel: (Rel, u8)| rels.contains(rel) <==> others.contains(rel),
        forall|k: int|
            0 <= k < rels.len() ==> (#[trigger] rels[k]).1 > 0 && modest(
                rels[k].0.relative_to(state.regions.full),
            ),
    ensures
        with_rels(state, rels).items == with_rels(state, others).items,
        with_rels(state, rels).y().is_finite() && with_rels(state, others).y().is_finite()
            ==> with_rels(state, rels) == with_rels(state, others),
{
    let full = state.regions.full;
    assert(rels.contains(rels[0]));
    assert(others.contains(rels[0]));
    assert forall|k: int| 0 <= k < others.len() implies (#[trigger] others[k]).1 > 0 && modest(
        others[k].0.relative_to(full),
    ) by {
        assert(others.contains(others[k]));
        assert(rels.contains(others[k]));
    }
    law_strongest_spacing_prevails(state, rels);
    law_strongest_spacing_prevails(state, others);
    lemma_rels_only_space(state, rels);
    lemma_rels_only_space(state, others);
    let (a, b) = (with_rels(state, rels), with_rels(state, others));
    if let Item::Abs(amount, weakness) = a.items.last() {
        if let Item::Abs(other, other_weakness) = b.items.last() {
            let k = choose|k: int|
                0 <= k < rels.len() && (#[trigger] rels[k]).0.relative_to(full) == amount
                    && rels[k].1 == weakness;
            let j = choose|j: int|
                0 <= j < others.len() && (#[trigger] others[j]).0.relative_to(full) == other
                    && others[j].1 == other_weakness;
            assert(rels.contains(rels[k]));
            assert(others.contains(others[j]));
            let m = choose|m: int| 0 <= m < others.len() && others[m] == rels[k];
            let l = choose|l: int| 0 <= l < rels.len() && rels[l] == others[j];
            assert(others[m] == rels[k] && rels[l] == others[j]);
            assert(amount == other && weakness == other_weakness);
        }
    }
    if a.y().is_finite() && b.y().is_finite() {
        assert(a.y() == b.y());
        assert(a =~= b);
    }
}

/// Relative spacing changes nothing but the items and what remains.
proof fn lemma_rels_only_space(state: DistModel, rels: Seq<(Rel, u8)>)
    ensures
        with_rels(state, rels) == (DistModel {
            items: with_rels(state, rels).items,
            ..state.with_y(with_rels(state, rels).y())
        }),
    decreases rels.len(),
{
    if rels.len() > 0 {
        lemma_rels_only_space(state, rels.drop_last());
    }
}

} // verus!
