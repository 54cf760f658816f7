//! Laws of a whole run of the distribution.
use vstd::prelude::*;

use crate::child::{Child, LineChild};
use crate::distribute::finalize::{arrangement, division, used_width, widened, Arrangement};
use crate::distribute::{distributed, distribution, DistModel, SnapshotModel};
use crate::engine::{RequestModel, StopModel};
use crate::frame::{Frame, FrameItem, Tag};
use crate::geom::{Abs, Axes, FixedAlignment, Point};
use crate::item::{all_migratable, last_stop, Item};
use crate::laws::collect::{floats_matched, tags_of, wrapped_by};
use crate::laws::items::{item_tags, lemma_spacing_taken, spacing_sound};
use crate::laws::steps::{
    all_tags, float_on_top, frames_fixed, kept, law_child_keeps_the_rest, law_float_stays_on_top,
    law_resuming_keeps_the_rest, lemma_fixed_prefix, lemma_fixed_twice, lemma_flushed,
    lemma_pending_kept, lemma_trimmed, resumed_kept, sticky_sound, sticky_within,
};
use crate::region::{Region, RegionsModel};
use crate::work::{ComposerModel, WorkModel};

verus! {

/// The state after the children from index `k` up to index `n` were processed, if none of them
/// stopped the distribution.
pub open spec fn processed(start: DistModel, children: Seq<Child>, k: int, n: int) -> (
    DistModel,
    Result<(), StopModel>,
)
    decreases n - k,
{
    if n <= k {
        (start, Ok(()))
    } else {
        match processed(start, children, k, n - 1) {
            (state, Ok(())) => match state.with_child(children[n - 1]) {
                (state, Ok(())) => (state.with_work(state.composer.work.advanced()), Ok(())),
                (state, Err(stop)) => (state, Err(stop)),
            },
            (state, Err(stop)) => (state, Err(stop)),
        }
    }
}

/// Processing all children goes through the states in between.
pub proof fn lemma_processed(start: DistModel, children: Seq<Child>, k: int, n: int)
    requires
        0 <= k <= n <= children.len(),
    ensures
        start.with_children(children, k) == match processed(start, children, k, n) {
            (state, Ok(())) => state.with_children(children, n),
            (state, Err(stop)) => (state, Err(stop)),
        },
    decreases n - k,
{
    if k < n {
        lemma_processed(start, children, k, n - 1);
    }
}

/// Whether the tags of the items and those that wait are the given ones, followed by those of the
/// children from index `k` on that are done.
pub open spec fn tags_match(
    tags: Seq<Tag>,
    children: Seq<Child>,
    k: int,
    items: Seq<Item>,
    work: WorkModel,
) -> bool {
    &&& work.children == children
    &&& k <= work.head <= children.len()
    &&& item_tags(items) + work.tags == tags + tags_of(children.subrange(k, work.head as int))
}

/// Whether the tags match in a state, and did when the snapshot for sticky blocks was taken.
pub open spec fn all_match(tags: Seq<Tag>, children: Seq<Child>, k: int, state: DistModel) -> bool {
    &&& tags_match(tags, children, k, state.items, state.composer.work)
    &&& state.sticky matches Some(snapshot) ==> {
        &&& snapshot.items <= state.items.len()
        &&& tags_match(
            tags,
            children,
            k,
            state.items.take(snapshot.items as int),
            snapshot.work,
        )
    }
}

/// The tags of children with one more.
proof fn lemma_one_more(children: Seq<Child>, k: int, n: int)
    requires
        0 <= k <= n < children.len(),
    ensures
        tags_of(children.subrange(k, n + 1)) == tags_of(children.subrange(k, n)) + tags_of(
            seq![children[n]],
        ),
        !(children[n] is Tag) ==> tags_of(seq![children[n]]) == Seq::<Tag>::empty(),
{
    let child = children[n];
    let front = children.subrange(k, n);
    let more = children.subrange(k, n + 1);
    assert(more.drop_last() =~= front);
    assert(seq![child].drop_last() =~= Seq::<Child>::empty());
    reveal_with_fuel(tags_of, 2);
    assert(tags_of(more) =~= tags_of(front) + tags_of(seq![child]));
}

/// A child leaves the tags matching.
proof fn lemma_child_matches(
    tags: Seq<Tag>,
    children: Seq<Child>,
    k: int,
    before: DistModel,
    n: int,
)
    requires
        0 <= k <= n < children.len(),
        before.composer.work.head == n,
        sticky_sound(before),
        all_match(tags, children, k, before),
    ensures
        ({
            let (after, result) = before.with_child(children[n]);
            match result {
                Ok(()) => all_match(
                    tags,
                    children,
                    k,
                    after.with_work(after.composer.work.advanced()),
                ),
                Err(_) => all_match(tags, children, k, after),
            }
        }),
{
    let child = children[n];
    let (after, result) = before.with_child(child);
    law_child_keeps_the_rest(before, child);
    lemma_one_more(children, k, n);
    let front = tags_of(children.subrange(k, n));
    assert((tags + front) + tags_of(seq![child]) =~= tags + (front + tags_of(seq![child])));
    assert((tags + front) + Seq::<Tag>::empty() =~= tags + front);
    assert(front + Seq::<Tag>::empty() =~= front);
    if after.sticky is Some && after.sticky == before.sticky {
        lemma_fixed_prefix(before, after.items);
    }
}

/// As long as no child stops the distribution, the children are taken off one by one, and no weak
/// spacing stands at the start or next to other weak spacing. What is left of blocks and
/// paragraphs stays untouched, and a frame follows the snapshot for sticky blocks, if there is
/// one. Where a child stops the distribution, at most that child is taken off, and the items are
/// still sound. At all times, no tag is lost or moved past another one, and all items up to the
/// last frame are kept.
pub proof fn law_children_are_taken_in_order(
    start: DistModel,
    tags: Seq<Tag>,
    children: Seq<Child>,
    k: int,
    m: int,
    n: int,
)
    requires
        0 <= k <= m <= n <= children.len(),
        start.composer.work.children == children,
        start.composer.work.head == m,
        spacing_sound(start.items),
        sticky_sound(start),
        all_match(tags, children, k, start),
    ensures
        ({
            let (after, result) = processed(start, children, m, n);
            &&& after.composer.work.children == children
            &&& m <= after.composer.work.head <= n
            &&& after.regions == start.regions.with_y(after.y())
            &&& spacing_sound(after.items)
            &&& frames_fixed(start.items, after.items)
            &&& sticky_within(after)
            &&& all_match(tags, children, k, after)
            &&& result is Ok ==> {
                &&& after.composer.work.head == n
                &&& after.composer.work.spill == start.composer.work.spill
                &&& after.composer.work.wrap_spill == start.composer.work.wrap_spill
                &&& sticky_sound(after)
            }
        }),
    decreases n - m,
{
    if m < n {
        law_children_are_taken_in_order(start, tags, children, k, m, n - 1);
        let (before, result) = processed(start, children, m, n - 1);
        if result is Ok {
            let child = children[n - 1];
            law_child_keeps_the_rest(before, child);
            lemma_child_matches(tags, children, k, before, n - 1);
            lemma_fixed_twice(start.items, before.items, before.with_child(child).0.items);
        }
    }
}

/// Whether a float that waits was placed by one of the children up to index `n`, with only tags
/// after it.
pub open spec fn float_just_placed(children: Seq<Child>, k: int, n: int) -> bool {
    exists|i: int| #[trigger] just_placed(children, k, n, i)
}

/// Whether the child at index `i` placed a float that a paragraph wraps around, with only tags
/// between it and index `n`.
pub open spec fn just_placed(children: Seq<Child>, k: int, n: int, i: int) -> bool {
    &&& k <= i < n
    &&& children[i] matches Child::Placed(placed) && placed.wrap_active
    &&& forall|j: int| i < j < n ==> (#[trigger] children[j]) is Tag
}

/// Whenever a paragraph takes the float that it wraps around, that float is the last item and as
/// it was placed: nothing was drawn in between. This holds of all flows whose floats are matched,
/// as they are in what was collected.
pub proof fn law_float_is_on_top_when_taken(
    start: DistModel,
    children: Seq<Child>,
    k: int,
    n: int,
)
    requires
        0 <= k <= n <= children.len(),
        floats_matched(children),
        start.pending is None,
    ensures
        processed(start, children, k, n) matches (state, Ok(())) ==> float_on_top(state) && (
        state.pending is Some ==> float_just_placed(children, k, n)),
    decreases n - k,
{
    if k < n {
        law_float_is_on_top_when_taken(start, children, k, n - 1);
        let (before, result) = processed(start, children, k, n - 1);
        if result is Ok {
            let child = children[n - 1];
            if before.pending is Some {
                let i = choose|i: int| #[trigger] just_placed(children, k, n - 1, i);
                assert(children[i] is Placed);
                let j = choose|j: int| #[trigger] wrapped_by(children, i, j);
                if j < n - 1 {
                    assert(children[j] is Tag);
                } else if j > n - 1 {
                    assert(children[n - 1] is Tag);
                    assert(just_placed(children, k, n, i));
                }
            }
            law_float_stays_on_top(before, child);
            let (after, outcome) = before.with_child(child);
            if outcome is Ok && after.pending is Some && !(child is Tag) {
                lemma_only_floats_wait(before, child);
                assert(just_placed(children, k, n, n - 1));
            }
        }
    }
}

/// Only a float that a paragraph wraps around waits for it.
proof fn lemma_only_floats_wait(before: DistModel, child: Child)
    requires
        before.pending is Some ==> child is Tag || child is Deferred,
        float_on_top(before),
        !(child is Tag),
        before.with_child(child).1 is Ok,
        before.with_child(child).0.pending is Some,
    ensures
        child matches Child::Placed(placed) && placed.wrap_active,
{
    if !(child matches Child::Placed(placed) && placed.wrap_active) {
        lemma_pending_kept(before, child);
    }
}

/// Lines that were carried on take no child off the work.
proof fn lemma_lines_keep_head(
    state: DistModel,
    lines: Seq<LineChild>,
    i: int,
    leading: Abs,
    spacing: Abs,
)
    ensures
        state.with_lines(lines, i, leading, spacing, false, true).0.composer.work.head
            == state.composer.work.head,
    decreases lines.len() - i,
{
    if i < lines.len() {
        let led = state.with_leading(i, leading);
        if !led.line_must_move(lines[i]) {
            let (framed, result) = led.with_frame(lines[i].frame, lines[i].align, false, false);
            if result is Ok {
                lemma_lines_keep_head(framed, lines, i + 1, leading, spacing);
            }
        }
    }
}

/// Resuming a block or paragraph takes no child off the work.
proof fn lemma_resuming_keeps_head(state: DistModel)
    ensures
        state.with_block_resumed().0.composer.work.head == state.composer.work.head,
        state.with_par_resumed().0.composer.work.head == state.composer.work.head,
{
    if let Some(spill) = state.composer.work.spill {
        let taken = state.with_spill(None);
        let (engine, laid_out) = spill.laid_out(taken.composer.engine, taken.regions);
        if let Ok((frame, rest)) = laid_out {
            let framed = taken.with_engine(engine).with_frame(
                frame,
                spill.multi.align,
                false,
                true,
            );
            assert(framed.0.composer.work.head == state.composer.work.head);
        }
    }
    if let Some(spill) = state.composer.work.wrap_spill {
        let taken = state.with_work(WorkModel { wrap_spill: None, ..state.composer.work });
        lemma_lines_keep_head(taken, spill.lines, 0, spill.leading, spill.spacing);
    }
}

/// Resuming leaves the tags matching.
proof fn lemma_resumed_matches(
    tags: Seq<Tag>,
    children: Seq<Child>,
    k: int,
    before: DistModel,
    step: (DistModel, Result<(), StopModel>),
)
    requires
        0 <= k,
        sticky_sound(before),
        all_match(tags, children, k, before),
        resumed_kept(before, step),
        step.0.composer.work.head == before.composer.work.head,
    ensures
        all_match(tags, children, k, step.0),
{
    if step.0.sticky is Some && step.0.sticky == before.sticky {
        lemma_fixed_prefix(before, step.0.items);
    }
}

/// However a run ends, no tag is lost or moved past another one, no child is skipped, no weak
/// spacing stands at the start or next to other weak spacing, and the items at the time of the
/// snapshot for sticky blocks are still there. A run that completes has placed everything: no
/// child is left, and nothing of a block or paragraph is.
pub proof fn law_run_keeps_everything(start: DistModel)
    requires
        start.composer.work.head <= start.composer.work.children.len(),
        spacing_sound(start.items),
        start.sticky is None,
    ensures
        ({
            let (after, result) = start.run();
            let children = start.composer.work.children;
            let head = start.composer.work.head as int;
            &&& all_match(all_tags(start), children, head, after)
            &&& spacing_sound(after.items)
            &&& sticky_within(after)
            &&& result is Ok ==> {
                &&& after.composer.work.head == children.len()
                &&& after.composer.work.spill is None
                &&& after.composer.work.wrap_spill is None
            }
        }),
{
    let tags = all_tags(start);
    let children = start.composer.work.children;
    let head = start.composer.work.head as int;
    assert(children.subrange(head, head) =~= Seq::<Child>::empty());
    assert(tags + Seq::<Tag>::empty() =~= tags);
    law_resuming_keeps_the_rest(start);
    lemma_resuming_keeps_head(start);
    let (a, result) = start.with_block_resumed();
    lemma_resumed_matches(tags, children, head, start, (a, result));
    if result is Ok {
        law_resuming_keeps_the_rest(a);
        lemma_resuming_keeps_head(a);
        let (b, result) = a.with_par_resumed();
        lemma_resumed_matches(tags, children, head, a, (b, result));
        if result is Ok {
            let n = children.len() as int;
            lemma_processed(b, children, head, n);
            law_children_are_taken_in_order(b, tags, children, head, head, n);
        }
    }
}

/// A band never crosses a region break: a distribution starts without one, and without a float
/// that waits for a paragraph or a snapshot for sticky blocks.
pub proof fn law_distribution_starts_afresh(composer: ComposerModel, regions: RegionsModel)
    ensures
        ({
            let start = distribution(composer, regions);
            &&& start.band is None
            &&& start.pending is None
            &&& start.sticky is None
            &&& spacing_sound(start.items)
            &&& sticky_sound(start)
            &&& all_tags(start) == composer.work.tags
        }),
{
    let start = distribution(composer, regions);
    assert(all_tags(start) =~= composer.work.tags);
}

/// The items that are arranged have no weak spacing at the end, none at the start, and none next
/// to other weak spacing.
pub proof fn law_weak_spacing_collapses(
    state: DistModel,
    init: SnapshotModel,
    forced: bool,
)
    requires
        spacing_sound(state.items),
    ensures
        ({
            let items = state.settled(init, forced).items;
            &&& spacing_sound(items)
            &&& last_stop(items) >= 0 ==> !items[last_stop(items)].is_weak()
        }),
{
    reveal(kept);
    lemma_flushed(state);
    let taken = if forced {
        state.with_tags_flushed()
    } else if state.items.len() > 0 && all_migratable(state.items) {
        state.restored(init)
    } else {
        match state.sticky {
            Some(snapshot) => (DistModel { sticky: None, ..state }).restored(snapshot),
            None => state,
        }
    };
    if init.items <= state.items.len() {
        lemma_spacing_taken(state.items, init.items as int);
    }
    if let Some(snapshot) = state.sticky {
        if snapshot.items <= state.items.len() {
            lemma_spacing_taken(state.items, snapshot.items as int);
        }
    }
    lemma_trimmed(taken);
}

/// The tags that are drawn, in order.
pub open spec fn drawn_tags(entries: Seq<(Point, FrameItem)>) -> Seq<Tag>
    decreases entries.len(),
{
    if entries.len() == 0 {
        Seq::empty()
    } else {
        match entries.last().1 {
            FrameItem::Tag(tag) => drawn_tags(entries.drop_last()).push(tag),
            FrameItem::Frame(_) => drawn_tags(entries.drop_last()),
        }
    }
}

/// Exactly the tags among the items are drawn.
proof fn lemma_tags_are_drawn(
    arrangement: Arrangement,
    items: Seq<Item>,
    fr_frames: Seq<Frame>,
)
    ensures
        drawn_tags(arrangement.entries(items, fr_frames)) == item_tags(items),
    decreases items.len(),
{
    if items.len() > 0 {
        lemma_tags_are_drawn(arrangement, items.drop_last(), fr_frames);
        let before = arrangement.entries(items.drop_last(), fr_frames);
        if let Some(entry) = arrangement.entry(items, fr_frames) {
            assert(before.push(entry).drop_last() =~= before);
        }
    }
}

/// Settling leaves the tags matching.
proof fn lemma_settled_matches(
    tags: Seq<Tag>,
    children: Seq<Child>,
    k: int,
    state: DistModel,
    init: SnapshotModel,
    forced: bool,
)
    requires
        all_match(tags, children, k, state),
        init.items == 0,
        tags_match(tags, children, k, Seq::empty(), init.work),
    ensures
        ({
            let settled = state.settled(init, forced);
            tags_match(tags, children, k, settled.items, settled.composer.work)
        }),
{
    reveal(kept);
    lemma_flushed(state);
    let taken = if forced {
        state.with_tags_flushed()
    } else if state.items.len() > 0 && all_migratable(state.items) {
        state.restored(init)
    } else {
        match state.sticky {
            Some(snapshot) => (DistModel { sticky: None, ..state }).restored(snapshot),
            None => state,
        }
    };
    assert(state.items.take(0) =~= Seq::<Item>::empty());
    lemma_trimmed(taken);
}

/// No tag is lost, repeated or moved past another one between regions: the tags in a region's frame
/// followed by those that wait afterwards are the ones that waited before followed by those of the
/// children that were taken off. No child comes back that was done before.
pub proof fn law_tags_are_conserved(composer: ComposerModel, regions: RegionsModel)
    requires
        composer.work.head <= composer.work.children.len(),
    ensures
        distributed(composer, regions) matches (after, Ok(frame)) ==> {
            let children = composer.work.children;
            &&& after.work.children == children
            &&& composer.work.head <= after.work.head <= children.len()
            &&& drawn_tags(frame.items) + after.work.tags == composer.work.tags + tags_of(
                children.subrange(composer.work.head as int, after.work.head as int),
            )
        },
{
    let start = distribution(composer, regions);
    let children = composer.work.children;
    let head = composer.work.head as int;
    let tags = composer.work.tags;
    law_distribution_starts_afresh(composer, regions);
    law_run_keeps_everything(start);
    let init = start.snapshot();
    assert(children.subrange(head, head) =~= Seq::<Child>::empty());
    assert(item_tags(Seq::empty()) + tags =~= tags + tags_of(children.subrange(head, head)));
    let (state, result) = start.run();
    let region = Region { size: regions.size, expand: regions.expand };
    let forced = match result {
        Ok(()) => state.composer.work.done(),
        Err(StopModel::Finish(forced)) => forced,
        Err(_) => false,
    };
    lemma_settled_matches(tags, children, head, state, init, forced);
    let settled = state.settled(init, forced);
    let divided = division(region, settled.items);
    let (engine, laid_out) = divided.fr_frames(
        settled.composer.engine,
        settled.items,
        settled.items.len(),
    );
    if let Ok(fr_frames) = laid_out {
        let width = widened(used_width(settled.items), fr_frames);
        lemma_tags_are_drawn(arrangement(divided, width), settled.items, fr_frames);
        if let Ok(insertions) = engine.ask_width(RequestModel::InsertionWidth).1 {
            lemma_tags_are_drawn(
                arrangement(divided, width.max(insertions)),
                settled.items,
                fr_frames,
            );
        }
    }
}

/// A region that came to hold nothing but what may migrate is left empty, with all the work as it
/// was, unless it is forced to end there.
pub proof fn law_migratable_items_migrate(state: DistModel, init: SnapshotModel)
    requires
        init.items == 0,
        state.items.len() > 0,
        all_migratable(state.items),
    ensures
        state.settled(init, false).items.len() == 0,
        state.settled(init, false).composer.work == init.work,
{
    assert(state.items.take(0) =~= Seq::<Item>::empty());
}

/// A group of sticky blocks at the end of a region moves on to the next one, unless the region is
/// forced to end there: the work is as it was before the first of them, and of the items only
/// those before it stay, without weak spacing at their end.
pub proof fn law_sticky_blocks_move_on(state: DistModel, init: SnapshotModel)
    requires
        state.sticky is Some,
        sticky_within(state),
        !all_migratable(state.items),
    ensures
        ({
            let snapshot = state.sticky->Some_0;
            let settled = state.settled(init, false);
            let stay = state.items.take(snapshot.items as int);
            &&& settled.composer.work == snapshot.work
            &&& settled.items == stay || (last_stop(stay) >= 0 && stay[last_stop(stay)].is_weak()
                && settled.items == stay.remove(last_stop(stay)))
        }),
{
}

/// Moving a group of sticky blocks on undoes exactly what came since the first of them: the work
/// and the items are as they were before it, whatever was added since.
pub proof fn law_sticky_group_is_undone(
    before: DistModel,
    frame: Frame,
    align: Axes<FixedAlignment>,
    breakable: bool,
    later: DistModel,
)
    requires
        before.sticky is None,
        before.with_frame(frame, align, true, breakable).1 is Ok,
        before.with_frame(frame, align, true, breakable).0.sticky is Some,
        frames_fixed(before.with_frame(frame, align, true, breakable).0.items, later.items),
    ensures
        ({
            let snapshot = before.with_frame(frame, align, true, breakable).0.sticky->Some_0;
            &&& snapshot == before.snapshot()
            &&& later.restored(snapshot).items == before.items
            &&& later.restored(snapshot).composer.work == before.composer.work
        }),
{
    let stuck = before.with_frame(frame, align, true, breakable).0;
    let n = before.items.len() as int;
    assert(stuck.items[stuck.items.len() - 1] is Frame);
    assert(stuck.items.take(n) =~= before.items);
    lemma_fixed_prefix(stuck, later.items);
}

/// A region ends as its run does. A run that completes forces the end exactly if all work is done,
/// and one that is finished early forces it if that was asked for. Any other stop is passed on, and
/// nothing is drawn. What may be taken back goes back to the work as it was at the start of the
/// region.
pub proof fn law_region_ends_as_its_run_does(composer: ComposerModel, regions: RegionsModel)
    ensures
        ({
            let start = distribution(composer, regions);
            let init = SnapshotModel { work: composer.work, items: 0 };
            let region = Region { size: regions.size, expand: regions.expand };
            let (state, result) = start.run();
            &&& start.composer == composer
            &&& start.regions == regions
            &&& start.items.len() == 0
            &&& start.stickable is None
            &&& distributed(composer, regions) == match result {
                Ok(()) => state.settled(init, state.composer.work.done()).arranged(region),
                Err(StopModel::Finish(forced)) => state.settled(init, forced).arranged(region),
                Err(stop) => (state.composer, Err(stop)),
            }
        }),
{
}

/// Going back to a snapshot restores the work and drops the items that came since.
pub proof fn law_snapshot_restores_work_and_items(state: DistModel, later: DistModel)
    requires
        later.items.len() >= state.items.len(),
    ensures
        state.snapshot() == (SnapshotModel {
            work: state.composer.work,
            items: state.items.len(),
        }),
        later.restored(state.snapshot()) == (DistModel {
            composer: ComposerModel {
                work: state.composer.work,
                engine: later.composer.engine,
            },
            items: later.items.take(state.items.len() as int),
            ..later
        }),
{
}

} // verus!
