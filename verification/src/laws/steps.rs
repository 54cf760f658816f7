//! What every step of a distribution keeps.
use vstd::prelude::*;

use crate::child::{
    Child, DeferredParChild, LineChild, MultiChild, PlacedChild, SingleChild, SpillModel,
    WrapSpillModel,
};
use crate::distribute::wrapped::{lines_height, WrapPlan, WrapSetup};
use crate::distribute::DistModel;
use crate::engine::{RequestModel, StopModel};
use crate::frame::{par_end_marked, Frame, Tag};
use crate::geom::{Abs, Axes, FixedAlignment, Fr, Rel, Size};
use crate::item::{last_fr_stop, last_stop, Item};
use crate::laws::items::{
    item_tags, lemma_fr_spacing_patched, lemma_item_pushed, lemma_item_removed,
    lemma_item_replaced, lemma_last_fr_stop, lemma_last_stop, lemma_spacing_appended,
    lemma_spacing_patched, lemma_spacing_pushed, lemma_spacing_taken, lemma_spacing_trimmed,
    lemma_tag_items, spacing_sound,
};
use crate::laws::collect::tags_of;
use crate::lines::line_children;
use crate::region::Region;
use crate::work::WorkModel;
use crate::wrap::ProfileModel;

verus! {

/// All tags so far: those that are among the items, then those that wait.
pub open spec fn all_tags(state: DistModel) -> Seq<Tag> {
    item_tags(state.items) + state.composer.work.tags
}

/// Whether there is a frame among the items that came after the snapshot for sticky blocks.
pub open spec fn sticky_sound(state: DistModel) -> bool {
    state.sticky matches Some(snapshot) ==> exists|j: int|
        snapshot.items <= j < state.items.len() && (#[trigger] state.items[j]) is Frame
}

/// Whether the items at the time of the snapshot for sticky blocks are still there.
pub open spec fn sticky_within(state: DistModel) -> bool {
    state.sticky matches Some(snapshot) ==> snapshot.items <= state.items.len()
}

/// Whether all items up to the last frame are the same.
pub open spec fn frames_fixed(before: Seq<Item>, after: Seq<Item>) -> bool {
    &&& forall|j: int| 0 <= j < before.len() && (#[trigger] before[j]) is Frame ==> j < after.len()
    &&& forall|j: int, k: int|
        0 <= k <= j < before.len() && (#[trigger] before[j]) is Frame ==> (#[trigger] after[k])
            == before[k]
}

/// Whether the snapshot for sticky blocks, if there is one, is either the one from before or was
/// taken in between: then it knows which children were done, and the tags of the items up to it
/// with the tags in it are all tags from before.
pub open spec fn snapshot_fresh(before: DistModel, after: DistModel) -> bool {
    after.sticky matches Some(snapshot) ==> {
        ||| before.sticky == after.sticky
        ||| {
            &&& snapshot.work.children == before.composer.work.children
            &&& snapshot.work.head == before.composer.work.head
            &&& snapshot.items <= after.items.len()
            &&& item_tags(after.items.take(snapshot.items as int)) + snapshot.work.tags == all_tags(
                before,
            )
        }
    }
}

/// What a successful step keeps:
/// - the children, which of them are done, and what is left of a block or paragraph;
/// - the regions, apart from how much of the first one remains;
/// - all tags, in order;
/// - that no weak spacing stands at the start or next to other weak spacing;
/// - all items up to the last frame;
/// - that a frame follows the snapshot for sticky blocks, if there is one, and that the snapshot
///   tells how things were.
#[verifier::opaque]
pub open spec fn kept(before: DistModel, after: DistModel) -> bool {
    &&& after.composer.work.children == before.composer.work.children
    &&& after.composer.work.head == before.composer.work.head
    &&& after.composer.work.spill == before.composer.work.spill
    &&& after.composer.work.wrap_spill == before.composer.work.wrap_spill
    &&& after.regions == before.regions.with_y(after.y())
    &&& all_tags(after) == all_tags(before)
    &&& spacing_sound(before.items) ==> spacing_sound(after.items)
    &&& frames_fixed(before.items, after.items)
    &&& sticky_sound(before) ==> sticky_sound(after) && snapshot_fresh(before, after)
    &&& after.pending == before.pending
}

/// What a step that stops the distribution keeps.
#[verifier::opaque]
pub open spec fn kept_at_stop(before: DistModel, after: DistModel) -> bool {
    &&& after.composer.work.children == before.composer.work.children
    &&& before.composer.work.head <= after.composer.work.head <= before.composer.work.head + 1
    &&& after.regions == before.regions.with_y(after.y())
    &&& all_tags(after) == all_tags(before)
    &&& spacing_sound(before.items) ==> spacing_sound(after.items)
    &&& frames_fixed(before.items, after.items)
    &&& sticky_sound(before) ==> sticky_within(after) && snapshot_fresh(before, after)
}

/// What a step keeps, by its outcome.
pub open spec fn kept_by(before: DistModel, step: (DistModel, Result<(), StopModel>)) -> bool {
    match step.1 {
        Ok(()) => kept(before, step.0),
        Err(_) => kept_at_stop(before, step.0),
    }
}

/// Items that stay the same twice stay the same.
pub proof fn lemma_fixed_twice(a: Seq<Item>, b: Seq<Item>, c: Seq<Item>)
    requires
        frames_fixed(a, b),
        frames_fixed(b, c),
    ensures
        frames_fixed(a, c),
{
    assert forall|j: int| 0 <= j < a.len() && (#[trigger] a[j]) is Frame implies j < c.len() by {
        assert(b[j] == a[j]);
    }
    assert forall|j: int, k: int|
        0 <= k <= j < a.len() && (#[trigger] a[j]) is Frame implies (#[trigger] c[k]) == a[k] by {
        assert(b[j] == a[j]);
        assert(b[k] == a[k]);
    }
}

/// What two steps in a row keep.
proof fn lemma_kept_twice(a: DistModel, b: DistModel, c: DistModel)
    ensures
        kept(a, b) && kept(b, c) ==> kept(a, c),
        kept(a, b) && kept_at_stop(b, c) ==> kept_at_stop(a, c),
{
    reveal(kept);
    reveal(kept_at_stop);
    if kept(a, b) && (kept(b, c) || kept_at_stop(b, c)) {
        lemma_fixed_twice(a.items, b.items, c.items);
        if sticky_sound(a) && c.sticky is Some && c.sticky == b.sticky && b.sticky != a.sticky {
            lemma_fixed_prefix(b, c.items);
        }
    }
}

/// The items up to the snapshot for sticky blocks are the same where those up to the last frame
/// are.
pub proof fn lemma_fixed_prefix(state: DistModel, after: Seq<Item>)
    requires
        sticky_sound(state),
        state.sticky is Some,
        frames_fixed(state.items, after),
    ensures
        state.sticky->Some_0.items <= after.len(),
        after.take(state.sticky->Some_0.items as int) == state.items.take(
            state.sticky->Some_0.items as int,
        ),
{
    let n = state.sticky->Some_0.items as int;
    let j = choose|j: int| n <= j < state.items.len() && (#[trigger] state.items[j]) is Frame;
    assert forall|k: int| 0 <= k < n implies after[k] == state.items[k] by {
        assert(state.items[j] is Frame);
    }
    assert(after.take(n) =~= state.items.take(n));
}

/// What two steps in a row keep, by the outcome of the second.
proof fn lemma_kept_then(a: DistModel, b: DistModel, step: (DistModel, Result<(), StopModel>))
    requires
        kept(a, b),
        kept_by(b, step),
    ensures
        kept_by(a, step),
{
    lemma_kept_twice(a, b, step.0);
}

/// A step that does not stop keeps at least what one that does keeps.
proof fn lemma_stopped(a: DistModel, b: DistModel)
    requires
        kept(a, b),
    ensures
        kept_at_stop(a, b),
{
    reveal(kept);
    reveal(kept_at_stop);
}

/// A step that leaves the items alone keeps everything if it keeps the work.
proof fn lemma_aside(a: DistModel, b: DistModel)
    requires
        b.items == a.items,
        b.sticky == a.sticky || b.sticky is None,
        b.pending == a.pending,
        b.regions == a.regions.with_y(b.y()),
        b.composer.work.children == a.composer.work.children,
        b.composer.work.tags == a.composer.work.tags,
    ensures
        b.composer.work.head == a.composer.work.head && b.composer.work.spill
            == a.composer.work.spill && b.composer.work.wrap_spill == a.composer.work.wrap_spill
            ==> kept(a, b),
        a.composer.work.head <= b.composer.work.head <= a.composer.work.head + 1 ==> kept_at_stop(
            a,
            b,
        ),
{
    reveal(kept);
    reveal(kept_at_stop);
}

/// Adding an item that is neither a tag nor weak spacing.
proof fn lemma_pushed(a: DistModel, y: Abs, item: Item)
    requires
        !(item is Tag),
        !item.is_weak(),
    ensures
        kept(a, a.with_y(y).pushed(item)),
{
    reveal(kept);
    let b = a.with_y(y).pushed(item);
    lemma_item_pushed(a.items, item);
    if spacing_sound(a.items) {
        lemma_spacing_pushed(a.items, item);
    }
    if sticky_sound(a) && a.sticky is Some {
        let n = a.sticky->Some_0.items;
        let j = choose|j: int| n <= j < a.items.len() && (#[trigger] a.items[j]) is Frame;
        assert(b.items[j] is Frame);
    }
}

/// Adding relative spacing.
proof fn lemma_rel(a: DistModel, amount: Rel, weakness: u8)
    ensures
        kept(a, a.with_rel(amount, weakness)),
{
    reveal(kept);
    let b = a.with_rel(amount, weakness);
    let amount = amount.relative_to(a.regions.full);
    let i = last_stop(a.items);
    lemma_last_stop(a.items);
    lemma_item_pushed(a.items, Item::Abs(amount, weakness));
    assert forall|j: int| 0 <= j < a.items.len() && (#[trigger] a.items[j]) is Frame implies j
        <= i by {
        if j > i {
            assert(a.items[j].see_through());
        }
    }
    if i >= 0 && a.items[i] is Abs {
        lemma_item_replaced(a.items, i, Item::Abs(amount, weakness));
    }
    if spacing_sound(a.items) {
        if weakness > 0 && i >= 0 && a.items[i] is Abs {
            lemma_spacing_patched(a.items, Item::Abs(amount, weakness));
        } else if weakness == 0 || (i >= 0 && a.items[i].supports()) {
            lemma_spacing_pushed(a.items, Item::Abs(amount, weakness));
        }
    }
    if sticky_sound(a) && a.sticky is Some {
        let n = a.sticky->Some_0.items;
        let j = choose|j: int| n <= j < a.items.len() && (#[trigger] a.items[j]) is Frame;
        assert(b.items[j] is Frame);
    }
}

/// Removing weak spacing from the end.
pub proof fn lemma_trimmed(a: DistModel)
    ensures
        kept(a, a.trimmed()),
        spacing_sound(a.items) ==> {
            let i = last_stop(a.trimmed().items);
            i >= 0 ==> !a.trimmed().items[i].is_weak()
        },
{
    reveal(kept);
    let b = a.trimmed();
    let i = last_stop(a.items);
    lemma_last_stop(a.items);
    assert forall|j: int| 0 <= j < a.items.len() && (#[trigger] a.items[j]) is Frame implies j
        <= i by {
        if j > i {
            assert(a.items[j].see_through());
        }
    }
    if i >= 0 && a.items[i].is_weak() {
        lemma_item_removed(a.items, i);
        if spacing_sound(a.items) {
            lemma_spacing_trimmed(a.items);
        }
    }
    if sticky_sound(a) && a.sticky is Some {
        let n = a.sticky->Some_0.items;
        let j = choose|j: int| n <= j < a.items.len() && (#[trigger] a.items[j]) is Frame;
        assert(b.items[j] is Frame);
    }
}

/// Adding fractional spacing.
proof fn lemma_fr(a: DistModel, fr: Fr, weakness: u8)
    ensures
        kept(a, a.with_fr(fr, weakness)),
{
    let b = a.with_fr(fr, weakness);
    let item = Item::Fr(fr, weakness, None);
    let i = last_fr_stop(a.items);
    lemma_last_fr_stop(a.items);
    let (patched, keep) = a.weak_fr_kept(fr, weakness);
    if weakness > 0 && !keep {
        reveal(kept);
        assert forall|j: int| 0 <= j < a.items.len() && (#[trigger] a.items[j]) is Frame implies j
            <= i by {
            if j > i {
                assert(a.items[j].fr_see_through());
            }
        }
        if i >= 0 && a.items[i] is Fr && !a.items[i].supports() {
            lemma_item_replaced(a.items, i, item);
            if spacing_sound(a.items) && a.items[i].is_weak() {
                lemma_fr_spacing_patched(a.items, item);
            }
        }
        if sticky_sound(a) && a.sticky is Some {
            let n = a.sticky->Some_0.items;
            let j = choose|j: int| n <= j < a.items.len() && (#[trigger] a.items[j]) is Frame;
            assert(b.items[j] is Frame);
        }
    } else {
        let t = a.trimmed();
        lemma_trimmed(a);
        if weakness == 0 {
            lemma_pushed(t, t.y(), item);
            assert(t.with_y(t.y()).pushed(item) =~= b);
            lemma_kept_twice(a, t, b);
        } else {
            reveal(kept);
            lemma_item_pushed(t.items, item);
            lemma_fixed_twice(a.items, t.items, b.items);
            if spacing_sound(a.items) {
                lemma_last_stop(a.items);
                let stop = last_stop(a.items);
                if stop < i {
                    assert(a.items[i].see_through());
                } else if stop > i {
                    assert(a.items[stop].fr_see_through());
                    lemma_spacing_trimmed(a.items);
                }
                lemma_spacing_pushed(t.items, item);
            }
            if sticky_sound(t) && t.sticky is Some {
                let n = t.sticky->Some_0.items;
                let j = choose|j: int| n <= j < t.items.len() && (#[trigger] t.items[j]) is Frame;
                assert(b.items[j] is Frame);
            }
        }
    }
}

/// Turning the tags that wait into items.
pub proof fn lemma_flushed(a: DistModel)
    ensures
        kept(a, a.with_tags_flushed()),
{
    reveal(kept);
    let b = a.with_tags_flushed();
    let tags = a.composer.work.tags;
    let added = tags.map_values(|tag: Tag| Item::Tag(tag));
    lemma_tag_items(a.items, tags);
    assert(all_tags(b) =~= all_tags(a));
    if spacing_sound(a.items) {
        lemma_spacing_appended(a.items, added);
    }
    if sticky_sound(a) && a.sticky is Some {
        let n = a.sticky->Some_0.items;
        let j = choose|j: int| n <= j < a.items.len() && (#[trigger] a.items[j]) is Frame;
        assert(b.items[j] is Frame);
    }
}

/// Adding strong spacing.
proof fn lemma_gap(a: DistModel, gap: Abs)
    ensures
        kept(a, a.with_gap(gap)),
{
    lemma_pushed(a, a.y().minus(gap), Item::Abs(gap, 0));
}

/// Adding an item for a frame.
proof fn lemma_frame_item(a: DistModel, frame: Frame, align: Axes<FixedAlignment>)
    ensures
        kept(a, a.with_frame_item(frame, align)),
{
    let b = a.with_y(a.y().minus(frame.height()));
    let c = b.with_tags_flushed();
    lemma_aside(a, b);
    lemma_flushed(b);
    lemma_pushed(c, c.y(), Item::Frame(frame, align));
    assert(c.with_y(c.y()).pushed(Item::Frame(frame, align)) =~= a.with_frame_item(frame, align));
    lemma_kept_twice(a, b, c);
    lemma_kept_twice(a, c, a.with_frame_item(frame, align));
}

/// Adding an in-flow frame.
proof fn lemma_frame(
    a: DistModel,
    frame: Frame,
    align: Axes<FixedAlignment>,
    sticky: bool,
    breakable: bool,
)
    ensures
        kept_by(a, a.with_frame(frame, align, sticky, breakable)),
{
    let s = a.with_stickiness(frame, sticky);
    let (f, result) = s.with_footnotes(frame, frame.height(), breakable);
    if s.sticky == a.sticky || s.sticky is None {
        lemma_aside(a, f);
        lemma_frame_item(f, frame, align);
        lemma_kept_twice(a, f, f.with_frame_item(frame, align));
    } else {
        // A snapshot was taken, which the frame follows.
        let plain = DistModel { sticky: None, ..f };
        lemma_aside(a, plain);
        lemma_frame_item(plain, frame, align);
        lemma_kept_twice(a, plain, plain.with_frame_item(frame, align));
        let b = f.with_frame_item(frame, align);
        reveal(kept);
        reveal(kept_at_stop);
        assert(b.items[b.items.len() - 1] is Frame);
        assert(b.items.take(a.items.len() as int) =~= a.items);
        assert(a.items.take(a.items.len() as int) =~= a.items);
    }
}

/// Adding a line.
proof fn lemma_line(a: DistModel, line: LineChild)
    ensures
        kept_by(a, a.with_line(line)),
{
    lemma_frame(a, line.frame, line.align, false, false);
    lemma_aside(a, a);
}

/// Adding an unbreakable block.
proof fn lemma_single(a: DistModel, single: SingleChild)
    ensures
        kept_by(a, a.with_single(single)),
{
    let region = Region { size: a.regions.base(), expand: a.regions.expand };
    let (engine, laid_out) = a.composer.engine.ask_frame(
        RequestModel::Single { single, region: single.pod(region) },
    );
    let b = a.with_engine(engine);
    lemma_aside(a, b);
    if let Ok(frame) = laid_out {
        match single.fr {
            Some(fr) => {
                let (c, result) = b.with_footnotes(frame, Abs(0), false);
                lemma_aside(a, c);
                let d = c.with_tags_flushed();
                let item = Item::Fr(fr, 0, Some(single));
                lemma_flushed(c);
                lemma_pushed(d, d.y(), item);
                assert(d.with_y(d.y()).pushed(item) =~= d.pushed(item));
                lemma_kept_twice(a, c, d);
                lemma_kept_twice(a, d, d.pushed(item));
            },
            None => {
                let step = b.with_frame(frame, single.align, single.sticky, false);
                lemma_frame(b, frame, single.align, single.sticky, false);
                lemma_kept_then(a, b, step);
            },
        }
    }
}

/// Adding a breakable block.
proof fn lemma_multi(a: DistModel, multi: MultiChild)
    ensures
        kept_by(a, a.with_multi(multi)),
{
    let (engine, laid_out) = multi.laid_out(a.composer.engine, a.regions);
    let b = a.with_engine(engine);
    lemma_aside(a, a);
    lemma_aside(a, b);
    if let Ok((frame, spill)) = laid_out {
        let step = b.with_frame(frame, multi.align, multi.sticky, true);
        lemma_frame(b, frame, multi.align, multi.sticky, true);
        lemma_kept_then(a, b, step);
        if step.1 is Ok {
            let c = step.0.with_spill(spill);
            let d = c.with_work(c.composer.work.advanced());
            lemma_aside(step.0, d);
            lemma_kept_twice(a, step.0, d);
        }
    }
}

/// Adding what spilled over from a breakable block.
proof fn lemma_multi_spill(a: DistModel, spill: SpillModel)
    ensures
        kept_by(a, a.with_multi_spill(spill)),
{
    lemma_aside(a, a.with_spill(Some(spill)));
    let (engine, laid_out) = spill.laid_out(a.composer.engine, a.regions);
    let b = a.with_engine(engine);
    lemma_aside(a, b);
    if let Ok((frame, rest)) = laid_out {
        let step = b.with_frame(frame, spill.multi.align, false, true);
        lemma_frame(b, frame, spill.multi.align, false, true);
        lemma_kept_then(a, b, step);
        if step.1 is Ok {
            let c = step.0.with_spill(rest);
            lemma_aside(step.0, c);
            lemma_kept_twice(a, step.0, c);
        }
    }
}

/// Emitting lines.
proof fn lemma_lines(
    a: DistModel,
    lines: Seq<LineChild>,
    i: int,
    leading: Abs,
    spacing: Abs,
    advance: bool,
    trailing: bool,
)
    ensures
        kept_by(a, a.with_lines(lines, i, leading, spacing, advance, trailing)),
    decreases lines.len() - i,
{
    lemma_aside(a, a);
    if i >= lines.len() {
        lemma_rel(a, Rel::absolute(spacing), 4);
    } else {
        let led = a.with_leading(i, leading);
        lemma_rel(a, Rel::absolute(leading), 5);
        assert(kept(a, led));
        if led.line_must_move(lines[i]) {
            let rest = WrapSpillModel { lines: lines.skip(i), leading, spacing };
            let c = led.with_lines_carried(rest, advance);
            lemma_aside(led, c);
            lemma_kept_twice(a, led, c);
        } else {
            let step = led.with_frame(lines[i].frame, lines[i].align, false, false);
            lemma_frame(led, lines[i].frame, lines[i].align, false, false);
            lemma_kept_then(a, led, step);
            if step.1 is Ok {
                let rest = step.0.with_lines(lines, i + 1, leading, spacing, advance, trailing);
                lemma_lines(step.0, lines, i + 1, leading, spacing, advance, trailing);
                lemma_kept_then(a, step.0, rest);
            }
        }
    }
}

/// Emitting carried lines.
proof fn lemma_wrap_spill(a: DistModel, spill: WrapSpillModel)
    ensures
        kept_by(a, a.with_wrap_spill(spill)),
{
    let work = WorkModel { wrap_spill: Some(spill), ..a.composer.work };
    lemma_aside(a, a.with_work(work));
    lemma_lines(a, spill.lines, 0, spill.leading, spill.spacing, false, true);
}

/// Asking for the lines of a paragraph.
proof fn lemma_par_lines(
    a: DistModel,
    d: DeferredParChild,
    base: Size,
    profile: Option<ProfileModel>,
)
    ensures
        kept(a, a.par_lines(d, base, profile).0),
        kept_at_stop(a, a.par_lines(d, base, profile).0),
{
    lemma_aside(a, a.par_lines(d, base, profile).0);
}

/// Adding the spacing and the lines of a paragraph.
proof fn lemma_spaced_lines(
    a: DistModel,
    gap: Abs,
    lines: Seq<LineChild>,
    leading: Abs,
    spacing: Abs,
    trailing: bool,
)
    ensures
        kept_by(
            a,
            a.with_tags_flushed().with_rel(Rel::absolute(gap), 4).with_lines(
                lines,
                0,
                leading,
                spacing,
                true,
                trailing,
            ),
        ),
{
    let b = a.with_tags_flushed();
    let c = b.with_rel(Rel::absolute(gap), 4);
    lemma_flushed(a);
    lemma_rel(b, Rel::absolute(gap), 4);
    lemma_kept_twice(a, b, c);
    lemma_lines(c, lines, 0, leading, spacing, true, trailing);
    lemma_kept_then(a, c, c.with_lines(lines, 0, leading, spacing, true, trailing));
}

/// Adding a deferred paragraph at full width.
proof fn lemma_uniform_par(a: DistModel, d: DeferredParChild)
    ensures
        kept_by(a, a.with_uniform_par(d)),
{
    let (b, result) = a.par_lines(d, d.base, None);
    lemma_par_lines(a, d, d.base, None);
    if let Ok(frames) = result {
        let lines = line_children(par_end_marked(frames), d.elem.leading, d.elem.style);
        lemma_spaced_lines(b, d.elem.spacing, lines, d.elem.leading, d.elem.spacing, true);
        lemma_kept_then(a, b, a.with_uniform_par(d));
    }
}

/// Replacing a float at the end by another item that is no spacing.
proof fn lemma_float_replaced(a: DistModel, y: Abs, item: Item)
    requires
        a.items.len() > 0,
        a.items.last() is WrapFloat,
        item is WrapFloat || item is Frame,
    ensures
        kept(a, DistModel { items: a.items.drop_last().push(item), ..a.with_y(y) }),
{
    reveal(kept);
    let front = a.items.drop_last();
    let b = DistModel { items: front.push(item), ..a.with_y(y) };
    assert(front.push(a.items.last()) =~= a.items);
    lemma_item_pushed(front, item);
    lemma_item_pushed(front, a.items.last());
    if spacing_sound(a.items) {
        assert(a.items.take(a.items.len() - 1) =~= front);
        lemma_spacing_taken(a.items, a.items.len() - 1);
        lemma_spacing_pushed(front, item);
    }
    if sticky_sound(a) && a.sticky is Some {
        let n = a.sticky->Some_0.items;
        let j = choose|j: int| n <= j < a.items.len() && (#[trigger] a.items[j]) is Frame;
        assert(b.items[j] is Frame);
    }
}

/// Turning a float at the end into a frame that takes up its height.
proof fn lemma_float_reserved(a: DistModel, frame: Frame, side: FixedAlignment)
    ensures
        kept(a, a.with_float_reserved(frame, side)),
{
    lemma_aside(a, a);
    if a.items.len() > 0 && a.items.last() is WrapFloat {
        lemma_float_replaced(
            a,
            a.y().minus(frame.height()),
            Item::Frame(frame, Axes { x: side, y: FixedAlignment::Start }),
        );
    }
}

/// Redrawing a float at the end as a scaled drop cap.
proof fn lemma_cap(a: DistModel, cap: Option<(Frame, Abs)>)
    ensures
        kept(a, a.with_cap(cap)),
{
    lemma_aside(a, a);
    if let Some((scaled, y_delta)) = cap {
        if a.items.len() > 0 {
            if let Item::WrapFloat(_, side, _) = a.items.last() {
                lemma_float_replaced(a, a.y(), Item::WrapFloat(scaled, side, y_delta));
                assert(a.with_y(a.y()) =~= a);
            }
        }
    }
}

/// Reserving a float's height and adding the paragraph below it.
proof fn lemma_wrap_fallback(
    a: DistModel,
    d: DeferredParChild,
    frame: Frame,
    side: FixedAlignment,
)
    ensures
        kept_by(a, a.with_wrap_fallback(d, frame, side)),
{
    let b = a.with_float_reserved(frame, side);
    lemma_float_reserved(a, frame, side);
    lemma_uniform_par(b, d);
    lemma_kept_then(a, b, b.with_uniform_par(d));
}

/// Adding a paragraph that was broken beside a float.
proof fn lemma_planned_lines(
    a: DistModel,
    d: DeferredParChild,
    frames: Seq<Frame>,
    plan: WrapPlan,
)
    ensures
        kept_by(a, a.with_planned_lines(d, frames, plan)),
{
    let b = a.with_cap(plan.cap);
    lemma_cap(a, plan.cap);
    let lines = line_children(frames, d.elem.leading, d.elem.style);
    let step = b.with_tags_flushed().with_rel(Rel::absolute(d.elem.spacing), 4).with_lines(
        lines,
        0,
        d.elem.leading,
        d.elem.spacing,
        true,
        plan.band is None,
    );
    lemma_spaced_lines(
        b,
        d.elem.spacing,
        lines,
        d.elem.leading,
        d.elem.spacing,
        plan.band is None,
    );
    lemma_kept_then(a, b, step);
    if step.1 is Ok {
        let after = a.with_planned_lines(d, frames, plan).0;
        let advanced = lines_height(frames, d.elem.leading).plus(d.elem.spacing);
        lemma_aside(step.0, DistModel { band: plan.band, ..step.0 });
        lemma_aside(step.0, step.0);
        lemma_gap(step.0, plan.bottom.minus(advanced));
        assert(kept(step.0, after));
        lemma_kept_twice(a, step.0, after);
    }
}

/// Adding a paragraph beside a float that fits.
proof fn lemma_wrapped_par(a: DistModel, d: DeferredParChild, setup: WrapSetup)
    ensures
        kept_by(a, a.with_wrapped_par(d, setup)),
{
    let profile = d.profile(setup, a.regions.size.x);
    let (b, result) = a.par_lines(d, d.base, Some(profile));
    lemma_par_lines(a, d, d.base, Some(profile));
    if let Ok(frames) = result {
        lemma_wrap_fallback(b, d, setup.float, setup.side);
        lemma_planned_lines(b, d, frames, d.plan(setup, frames, b.continuation_follows()));
        lemma_kept_then(a, b, a.with_wrapped_par(d, setup));
    }
}

/// Adding a deferred paragraph that nothing is drawn beside yet.
proof fn lemma_capped_par(
    a: DistModel,
    d: DeferredParChild,
    float: Frame,
    side: FixedAlignment,
    n: usize,
)
    ensures
        kept_by(a, a.with_capped_par(d, float, side, n)),
{
    let (b, measured) = a.line_height_of(d);
    lemma_par_lines(a, d, a.regions.size, None);
    if let Ok(line_height) = measured {
        let (c, looked_up) = b.cap_height_of(d);
        lemma_aside(b, c);
        lemma_kept_twice(a, b, c);
        lemma_wrap_fallback(b, d, float, side);
        if let Ok(cap) = looked_up {
            let setup = WrapSetup { float, side, cap: Some((n, cap)), line_height };
            lemma_wrapped_par(c, d, setup);
            lemma_kept_then(b, c, c.with_wrapped_par(d, setup));
        }
        lemma_kept_then(a, b, a.with_capped_par(d, float, side, n));
    }
}

/// Adding a deferred paragraph beside a float that is not a drop cap.
proof fn lemma_floated_par(a: DistModel, d: DeferredParChild, float: Frame, side: FixedAlignment)
    ensures
        kept_by(a, a.with_floated_par(d, float, side)),
{
    lemma_wrap_fallback(a, d, float, side);
    let (b, measured) = a.line_height_of(d);
    lemma_par_lines(a, d, a.regions.size, None);
    if let Ok(line_height) = measured {
        let setup = WrapSetup { float, side, cap: None, line_height };
        lemma_wrapped_par(b, d, setup);
        lemma_kept_then(a, b, b.with_wrapped_par(d, setup));
    }
}

/// Adding a deferred paragraph, apart from the float that it takes.
pub proof fn lemma_deferred_par(a: DistModel, d: DeferredParChild)
    ensures
        kept_by(DistModel { pending: None, ..a }, a.with_deferred_par(d)),
{
    let b = DistModel { pending: None, ..a };
    match a.pending {
        None => lemma_uniform_par(b, d),
        Some((float, side)) => match d.cap_lines() {
            Some(n) => lemma_capped_par(b, d, float, side, n),
            None => lemma_floated_par(b, d, float, side),
        },
    }
}

/// Adding a continuation paragraph.
proof fn lemma_continuation_par(a: DistModel, d: DeferredParChild)
    ensures
        kept_by(a, a.with_continuation_par(d)),
{
    match a.band {
        None => lemma_uniform_par(a, d),
        Some(band) => {
            let b = a.with_tags_flushed();
            let c = b.with_rel(Rel::absolute(band.gap), 4);
            let profile = Some(band.after_gap().profile(a.regions.size.x));
            let (e, result) = a.asked_beside(d, band);
            lemma_flushed(a);
            lemma_rel(b, Rel::absolute(band.gap), 4);
            lemma_par_lines(c, d, d.base, profile);
            lemma_kept_twice(a, b, c);
            lemma_kept_twice(a, c, e);
            lemma_stopped(a, e);
            if let Ok(frames) = result {
                let line_height = band.pitch.minus(band.leading);
                let band = band.after_gap();
                let f = DistModel { band: None, ..e };
                let g = f.with_gap(band.remaining);
                lemma_aside(e, f);
                lemma_gap(f, band.remaining);
                lemma_uniform_par(g, d);
                lemma_kept_twice(a, e, f);
                lemma_kept_twice(a, f, g);
                lemma_kept_then(a, g, g.with_uniform_par(d));
                let lines = line_children(par_end_marked(frames), band.leading, d.elem.style);
                let step = e.with_lines(lines, 0, band.leading, d.elem.spacing, true, true);
                lemma_lines(e, lines, 0, band.leading, d.elem.spacing, true, true);
                lemma_kept_then(a, e, step);
                let (after, outcome) = e.with_band_lines(d, frames, band, line_height);
                lemma_aside(step.0, after);
                lemma_kept_twice(a, step.0, after);
                if outcome is Err {
                    reveal(kept_at_stop);
                }
            }
        },
    }
}

/// Adding a placed child that does not wait for a paragraph to wrap around it.
proof fn lemma_placed(a: DistModel, placed: PlacedChild)
    ensures
        ({
            let step = a.with_placed(placed);
            kept_by(
                a,
                (
                    DistModel {
                        pending: if step.1 is Ok {
                            a.pending
                        } else {
                            step.0.pending
                        },
                        ..step.0
                    },
                    step.1,
                ),
            )
        }),
{
    let step = a.with_placed(placed);
    if placed.float && !placed.wrap {
        lemma_aside(a, step.0);
    } else {
        let (engine, laid_out) = placed.laid_out(a.composer.engine, a.regions.base());
        let b = a.with_engine(engine);
        lemma_aside(a, b);
        if let Ok(frame) = laid_out {
            if placed.float {
                let c = b.without_stickiness(frame);
                let (e, result) = c.with_footnotes(frame, frame.height(), true);
                lemma_aside(a, e);
                let f = e.with_tags_flushed();
                let item = Item::WrapFloat(frame, placed.align_x, Abs(0));
                lemma_flushed(e);
                lemma_pushed(f, f.y(), item);
                assert(f.with_y(f.y()).pushed(item) =~= f.pushed(item));
                lemma_kept_twice(a, e, f);
                lemma_kept_twice(a, f, f.pushed(item));
                let align = Axes { x: placed.align_x, y: FixedAlignment::Start };
                lemma_frame_item(e, frame, align);
                lemma_kept_twice(a, e, e.with_frame_item(frame, align));
                assert(f.pushed(item).pending == a.pending);
                assert(DistModel { pending: a.pending, ..f.pushed(item) } =~= f.pushed(item));
                assert(e.with_frame_item(frame, align).pending == a.pending);
                assert(DistModel { pending: a.pending, ..e.with_frame_item(frame, align) }
                    =~= e.with_frame_item(frame, align));
            } else {
                let (e, result) = b.with_footnotes(frame, Abs(0), true);
                lemma_aside(a, e);
                let f = e.with_tags_flushed();
                let item = Item::Placed(frame, placed);
                lemma_flushed(e);
                lemma_pushed(f, f.y(), item);
                assert(f.with_y(f.y()).pushed(item) =~= f.pushed(item));
                lemma_kept_twice(a, e, f);
                lemma_kept_twice(a, f, f.pushed(item));
                assert(DistModel { pending: a.pending, ..f.pushed(item) } =~= f.pushed(item));
            }
        }
    }
    if step.1 is Err {
        assert(DistModel { pending: step.0.pending, ..step.0 } =~= step.0);
    }
}

/// What processing a child keeps: all that a step keeps, apart from the float that waits for a
/// paragraph. A tag is added to those that wait.
pub open spec fn child_kept(
    before: DistModel,
    child: Child,
    step: (DistModel, Result<(), StopModel>),
) -> bool {
    let after = step.0;
    &&& after.composer.work.children == before.composer.work.children
    &&& after.regions == before.regions.with_y(after.y())
    &&& all_tags(after) == all_tags(before) + tags_of(seq![child])
    &&& spacing_sound(before.items) ==> spacing_sound(after.items)
    &&& frames_fixed(before.items, after.items)
    &&& sticky_sound(before) ==> sticky_within(after) && snapshot_fresh(before, after)
    &&& before.composer.work.head <= after.composer.work.head <= before.composer.work.head + 1
    &&& step.1 is Ok ==> {
        &&& after.composer.work.head == before.composer.work.head
        &&& after.composer.work.spill == before.composer.work.spill
        &&& after.composer.work.wrap_spill == before.composer.work.wrap_spill
        &&& sticky_sound(before) ==> sticky_sound(after)
    }
}

/// What is kept apart from the float that waits.
proof fn lemma_child_kept(
    a: DistModel,
    child: Child,
    b: DistModel,
    step: (DistModel, Result<(), StopModel>),
    c: DistModel,
)
    requires
        !(child is Tag),
        b == (DistModel { pending: b.pending, ..a }),
        c == (DistModel { pending: c.pending, ..step.0 }),
        kept_by(b, (c, step.1)),
    ensures
        child_kept(a, child, step),
{
    reveal(kept);
    reveal(kept_at_stop);
    assert(seq![child].drop_last() =~= Seq::<Child>::empty());
    reveal_with_fuel(tags_of, 2);
    assert(all_tags(a) + Seq::<Tag>::empty() =~= all_tags(a));
}

/// Clearing a live band before a child.
proof fn lemma_band_cleared(a: DistModel, child: Child)
    ensures
        kept(a, a.with_band_cleared(child)),
{
    lemma_aside(a, a);
    if let Some(band) = a.band {
        let b = DistModel { band: None, ..a };
        lemma_aside(a, b);
        lemma_gap(b, band.remaining);
        lemma_kept_twice(a, b, b.with_gap(band.remaining));
    }
}

/// Each child keeps the children, which of them are done unless it stops the distribution, the
/// regions apart from what remains of the first, all tags in order, and all items up to the last
/// frame. It adds no weak spacing at the start or next to other weak spacing.
pub proof fn law_child_keeps_the_rest(state: DistModel, child: Child)
    ensures
        child_kept(state, child, state.with_child(child)),
{
    let b = state.with_band_cleared(child);
    let step = state.with_child(child);
    lemma_band_cleared(state, child);
    match child {
        Child::Tag(tag) => {
            reveal(kept);
            assert(seq![child].drop_last() =~= Seq::<Child>::empty());
            reveal_with_fuel(tags_of, 2);
            assert(all_tags(step.0) =~= all_tags(state) + tags_of(seq![child]));
        },
        Child::Rel(amount, weakness) => {
            lemma_rel(b, amount, weakness);
            lemma_kept_then(state, b, step);
            lemma_child_kept(state, child, state, step, step.0);
        },
        Child::Fr(fr, weakness) => {
            lemma_fr(b, fr, weakness);
            lemma_kept_then(state, b, step);
            lemma_child_kept(state, child, state, step, step.0);
        },
        Child::Line(line) => {
            lemma_line(b, line);
            lemma_kept_then(state, b, step);
            lemma_child_kept(state, child, state, step, step.0);
        },
        Child::Single(single) => {
            lemma_single(b, single);
            lemma_kept_then(state, b, step);
            lemma_child_kept(state, child, state, step, step.0);
        },
        Child::Multi(multi) => {
            lemma_multi(b, multi);
            lemma_kept_then(state, b, step);
            lemma_child_kept(state, child, state, step, step.0);
        },
        Child::Placed(placed) => {
            lemma_placed(b, placed);
            let c = DistModel {
                pending: if step.1 is Ok {
                    b.pending
                } else {
                    step.0.pending
                },
                ..step.0
            };
            lemma_kept_then(state, b, (c, step.1));
            lemma_child_kept(state, child, state, step, c);
        },
        Child::Deferred(d) => {
            if d.continuation && b.band is Some {
                lemma_continuation_par(b, d);
                lemma_kept_then(state, b, step);
                lemma_child_kept(state, child, state, step, step.0);
            } else {
                let taken = DistModel { pending: None, ..state };
                let cleared = DistModel { pending: None, ..b };
                lemma_deferred_par(b, d);
                lemma_band_cleared(taken, child);
                assert(taken.with_band_cleared(child) =~= cleared);
                lemma_kept_then(taken, cleared, step);
                lemma_child_kept(state, child, taken, step, step.0);
            }
        },
        Child::Flush => {
            lemma_aside(b, b);
            lemma_kept_then(state, b, step);
            lemma_child_kept(state, child, state, step, step.0);
        },
        Child::Break(weak) => {
            lemma_aside(b, b);
            lemma_aside(b, b.with_work(b.composer.work.advanced()));
            lemma_kept_then(state, b, step);
            lemma_child_kept(state, child, state, step, step.0);
        },
    }
}

/// What resuming what is left from the previous region keeps.
pub open spec fn resumed_kept(before: DistModel, step: (DistModel, Result<(), StopModel>)) -> bool {
    let after = step.0;
    &&& after.composer.work.children == before.composer.work.children
    &&& after.regions == before.regions.with_y(after.y())
    &&& all_tags(after) == all_tags(before)
    &&& spacing_sound(before.items) ==> spacing_sound(after.items)
    &&& frames_fixed(before.items, after.items)
    &&& sticky_sound(before) ==> sticky_within(after) && snapshot_fresh(before, after)
    &&& before.composer.work.head <= after.composer.work.head <= before.composer.work.head + 1
    &&& step.1 is Ok ==> {
        &&& after.composer.work.head == before.composer.work.head
        &&& sticky_sound(before) ==> sticky_sound(after)
        &&& after.pending == before.pending
    }
}

/// Resuming a block or paragraph leaves the children alone and loses no tags. If it succeeds,
/// nothing is left of the block or paragraph.
pub proof fn law_resuming_keeps_the_rest(state: DistModel)
    ensures
        resumed_kept(state, state.with_block_resumed()),
        resumed_kept(state, state.with_par_resumed()),
        state.with_block_resumed() matches (after, Ok(())) ==> {
            &&& after.composer.work.spill is None
            &&& after.composer.work.wrap_spill == state.composer.work.wrap_spill
        },
        state.with_par_resumed() matches (after, Ok(())) ==> {
            &&& after.composer.work.wrap_spill is None
            &&& after.composer.work.spill == state.composer.work.spill
        },
{
    reveal(kept);
    reveal(kept_at_stop);
    if let Some(spill) = state.composer.work.spill {
        lemma_multi_spill(state.with_spill(None), spill);
    }
    if let Some(spill) = state.composer.work.wrap_spill {
        let taken = state.with_work(WorkModel { wrap_spill: None, ..state.composer.work });
        lemma_wrap_spill(taken, spill);
    }
}

/// Whether a float that waits for a paragraph is the last item and as it was placed, with no band
/// live beside it.
pub open spec fn float_on_top(state: DistModel) -> bool {
    state.pending matches Some((float, side)) ==> {
        &&& state.band is None
        &&& state.items.len() > 0
        &&& state.items.last() == Item::WrapFloat(float, side, Abs(0))
    }
}

/// A float that waits for the paragraph that wraps around it stays the last item until that
/// paragraph takes it, as long as nothing but tags comes between the two.
pub proof fn law_float_stays_on_top(state: DistModel, child: Child)
    requires
        float_on_top(state),
        state.pending is Some ==> child is Tag || child is Deferred,
    ensures
        state.with_child(child).1 is Ok ==> float_on_top(state.with_child(child).0),
{
    let b = state.with_band_cleared(child);
    let step = state.with_child(child);
    lemma_band_cleared(state, child);
    assert(b.pending == state.pending) by {
        reveal(kept);
    }
    match child {
        Child::Rel(amount, weakness) => {
            lemma_rel(b, amount, weakness);
        },
        Child::Fr(fr, weakness) => {
            lemma_fr(b, fr, weakness);
        },
        Child::Line(line) => {
            lemma_line(b, line);
        },
        Child::Single(single) => {
            lemma_single(b, single);
        },
        Child::Multi(multi) => {
            lemma_multi(b, multi);
        },
        Child::Placed(placed) => {
            lemma_float_placed(b, placed);
        },
        Child::Deferred(d) => {
            if d.continuation && b.band is Some {
                lemma_continuation_par(b, d);
            } else {
                lemma_deferred_par(b, d);
            }
        },
        _ => {},
    }
    if step.1 is Ok && !(child is Placed) && !(child is Tag) {
        reveal(kept);
        assert(step.0.pending is None);
    }
}

/// No child but one that places a float that a paragraph wraps around makes a float wait.
pub proof fn lemma_pending_kept(state: DistModel, child: Child)
    requires
        state.with_child(child).1 is Ok,
        !(child matches Child::Placed(placed) && placed.wrap_active),
    ensures
        state.with_child(child).0.pending is Some ==> {
            &&& state.with_child(child).0.pending == state.pending
            &&& child matches Child::Deferred(d) ==> d.continuation && state.band is Some
        },
{
    let b = state.with_band_cleared(child);
    lemma_band_cleared(state, child);
    match child {
        Child::Rel(amount, weakness) => {
            lemma_rel(b, amount, weakness);
        },
        Child::Fr(fr, weakness) => {
            lemma_fr(b, fr, weakness);
        },
        Child::Line(line) => {
            lemma_line(b, line);
        },
        Child::Single(single) => {
            lemma_single(b, single);
        },
        Child::Multi(multi) => {
            lemma_multi(b, multi);
        },
        Child::Deferred(d) => {
            if d.continuation && b.band is Some {
                lemma_continuation_par(b, d);
            } else {
                lemma_deferred_par(b, d);
            }
        },
        _ => {},
    }
    reveal(kept);
}

/// A float is the last item right after it was placed.
proof fn lemma_float_placed(a: DistModel, placed: PlacedChild)
    requires
        a.pending is None,
        a.band is None,
    ensures
        a.with_placed(placed).1 is Ok ==> float_on_top(a.with_placed(placed).0),
{
}

} // verus!
