//! Laws of regions and of the work that is distributed over them.
use vstd::prelude::*;

use crate::geom::{Abs, Axes};
use crate::region::RegionsModel;
use crate::work::WorkModel;

verus! {

/// Moving on may help exactly if the next region comes from the backlog, or if the region that is
/// repeated is not just as high as what remains.
pub proof fn law_progress_needs_another_height(regions: RegionsModel)
    ensures
        regions.backlog.len() > 0 ==> regions.may_progress() && regions.may_break()
            && regions.next_height() == Some(regions.backlog[0]),
        regions.backlog.len() == 0 && regions.last is None ==> !regions.may_progress()
            && !regions.may_break() && regions.next_height() is None,
        regions.backlog.len() == 0 ==> (regions.last matches Some(height) ==> {
            &&& regions.may_progress() <==> regions.size.y != height
            &&& regions.may_break()
            &&& regions.next_height() == Some(height)
        }),
{
}

/// A region is full once nothing remains of it, but for one unit, and moving on may help.
pub proof fn law_full_region_has_nothing_left(regions: RegionsModel)
    ensures
        regions.is_full() <==> regions.size.y.0 <= 1 && regions.may_progress(),
{
}

/// Relative lengths refer to the full height of a region, however much of it remains.
pub proof fn law_base_is_full_height(regions: RegionsModel, y: Abs)
    ensures
        regions.base() == (Axes { x: regions.size.x, y: regions.full }),
        regions.with_y(y).base() == regions.base(),
        regions.with_y(y).size == (Axes { x: regions.size.x, y }),
        regions.with_y(y).full == regions.full,
        regions.with_y(y).expand == regions.expand,
        regions.with_y(y).backlog == regions.backlog,
        regions.with_y(y).last == regions.last,
{
}

/// Content stays where it and what must stay together with it fit. Where it does not fit, it moves
/// on if that may help. Where only its need does not fit, it moves on if the need fits into the
/// next region.
pub proof fn law_content_moves_on_for_room(regions: RegionsModel, height: Abs, need: Abs)
    requires
        regions.size.y.is_finite(),
        regions.size.y.0 < i64::MAX - 1,
    ensures
        height.0 <= regions.size.y.0 + 1 && need.0 <= regions.size.y.0 + 1
            ==> !regions.must_move_on(height, need),
        height.0 > regions.size.y.0 + 1 && regions.may_progress() ==> regions.must_move_on(
            height,
            need,
        ),
        !regions.may_break() ==> !regions.must_move_on(height, need),
        (height.0 <= regions.size.y.0 + 1 || !regions.may_progress()) && need.0 > regions.size.y.0
            + 1 ==> (regions.must_move_on(height, need) <==> (regions.next_height() matches Some(
            next,
        ) && next.fits(need))),
{
}

/// The work is done once no child, nothing of a block or paragraph, and no insertion is left.
pub proof fn law_work_is_done_when_nothing_is_left(work: WorkModel)
    ensures
        work.done() <==> {
            &&& work.head >= work.children.len()
            &&& work.spill is None
            &&& work.wrap_spill is None
            &&& work.insertions.floats == 0
            &&& work.insertions.footnotes == 0
            &&& !work.insertions.footnote_spill
        },
{
}

/// Children are taken off from the front, one at a time.
pub proof fn law_head_is_first_child_left(work: WorkModel)
    ensures
        work.head < work.children.len() ==> work.head_child() == Some(
            work.children[work.head as int],
        ),
        work.head >= work.children.len() ==> work.head_child() is None,
        work.next_child() == work.advanced().head_child(),
        work.advanced() == (WorkModel {
            children: work.children,
            head: work.head + 1,
            spill: work.spill,
            wrap_spill: work.wrap_spill,
            tags: work.tags,
            insertions: work.insertions,
        }),
{
}

} // verus!
