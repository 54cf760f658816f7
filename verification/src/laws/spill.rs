//! Laws of breakable blocks that spill over into further regions.
use vstd::prelude::*;

use crate::child::{without_repeats, MultiChild, SpillModel};
use crate::frame::Frame;
use crate::geom::Abs;
use crate::region::RegionsModel;

verus! {

/// The height of one of the regions after the first, if there is such a region: those in the
/// backlog come first, then the last one is repeated.
pub open spec fn region_height(backlog: Seq<Abs>, last: Option<Abs>, i: nat) -> Option<Abs> {
    if i < backlog.len() {
        Some(backlog[i as int])
    } else {
        last
    }
}

/// Heights that only repeat the last one can be dropped from the backlog without changing any
/// region.
pub proof fn law_dropped_repeats_change_no_region(
    heights: Seq<Abs>,
    min_len: nat,
    last: Option<Abs>,
    i: nat,
)
    ensures
        region_height(without_repeats(heights, min_len, last), last, i) == region_height(
            heights,
            last,
            i,
        ),
    decreases heights.len(),
{
    if heights.len() > min_len && Some(heights.last()) == last {
        law_dropped_repeats_change_no_region(heights.drop_last(), min_len, last, i);
    }
}

/// No more heights are dropped than may be, and only from the end.
proof fn lemma_enough_heights(heights: Seq<Abs>, min_len: nat, last: Option<Abs>)
    ensures
        without_repeats(heights, min_len, last).is_prefix_of(heights),
        without_repeats(heights, min_len, last).len() <= heights.len(),
        without_repeats(heights, min_len, last).len() >= min_len || without_repeats(
            heights,
            min_len,
            last,
        ).len() == heights.len(),
    decreases heights.len(),
{
    if heights.len() > min_len && Some(heights.last()) == last {
        lemma_enough_heights(heights.drop_last(), min_len, last);
    }
}

/// A block that spilled over is laid out again into the very regions that it went through so far,
/// then the current one, then those that follow. The heights that are passed on start with theirs,
/// in order, up to where only the last height is repeated.
pub proof fn law_spill_repeats_its_regions(spill: SpillModel, regions: RegionsModel, i: nat)
    ensures
        spill.pod(regions).size.y == spill.first,
        spill.pod(regions).backlog.is_prefix_of(spill.committed(regions) + regions.backlog),
        region_height(spill.pod(regions).backlog, spill.pod(regions).last, i) == if i
            < spill.backlog.len() {
            Some(spill.backlog[i as int])
        } else if i == spill.backlog.len() {
            Some(regions.size.y)
        } else {
            region_height(regions.backlog, regions.last, (i - spill.backlog.len() - 1) as nat)
        },
{
    let heights = spill.committed(regions) + regions.backlog;
    law_dropped_repeats_change_no_region(heights, spill.min_backlog_len, regions.last, i);
    lemma_enough_heights(heights, spill.min_backlog_len, regions.last);
}

/// The frames of a block come out one by one: the first one goes into the region that the block
/// starts in, and each time the block goes on, the next one follows. Something spills over as
/// long as there are more frames.
pub proof fn law_frames_come_out_in_order(
    multi: MultiChild,
    spill: SpillModel,
    regions: RegionsModel,
    frames: Seq<Frame>,
)
    ensures
        multi.first_frame(regions, frames) matches Ok((frame, rest)) ==> {
            &&& frames.len() >= 1 && frame == frames[0]
            &&& rest is Some <==> frames.len() > 1
            &&& rest matches Some(rest) ==> rest.multi == multi && rest.backlog.len() == 0
                && rest.first == regions.size.y
        },
        spill.next_frame(regions, frames) matches Ok((frame, rest)) ==> {
            let i = spill.backlog.len() as int + 1;
            &&& frames.len() > i && frame == frames[i]
            &&& rest is Some <==> frames.len() > i + 1
            &&& rest matches Some(rest) ==> rest.multi == spill.multi && rest.first == spill.first
                && rest.backlog == spill.backlog.push(regions.size.y)
        },
{
}

/// The number of regions that a block is laid out into never shrinks as it goes on, provided that
/// the regions at hand are no fewer than before.
pub proof fn law_backlog_never_shrinks(
    spill: SpillModel,
    regions: RegionsModel,
    frames: Seq<Frame>,
    next: RegionsModel,
)
    requires
        next.backlog.len() + 1 >= regions.backlog.len(),
    ensures
        spill.next_frame(regions, frames) matches Ok((_, Some(rest))) ==> {
            &&& rest.min_backlog_len >= spill.min_backlog_len
            &&& rest.pod_backlog(next).len() >= spill.pod_backlog(regions).len()
        },
{
    lemma_enough_heights(
        spill.committed(regions) + regions.backlog,
        spill.min_backlog_len,
        regions.last,
    );
    if let Ok((_, Some(rest))) = spill.next_frame(regions, frames) {
        lemma_enough_heights(
            rest.committed(next) + next.backlog,
            rest.min_backlog_len,
            next.last,
        );
    }
}

/// Heights that only repeat the last one are dropped, down to as many as must be kept: none is left
/// at the end beyond those.
pub proof fn law_no_needless_height_is_kept(heights: Seq<Abs>, min_len: nat, last: Option<Abs>)
    ensures
        ({
            let kept = without_repeats(heights, min_len, last);
            &&& kept.is_prefix_of(heights)
            &&& kept.len() <= min_len || kept.len() == 0 || Some(kept.last()) != last
            &&& kept.len() >= min_len || kept == heights
            &&& forall|k: int|
                kept.len() <= k < heights.len() ==> Some(#[trigger] heights[k]) == last
        }),
    decreases heights.len(),
{
    if heights.len() > min_len && Some(heights.last()) == last {
        let front = heights.drop_last();
        law_no_needless_height_is_kept(front, min_len, last);
        let kept = without_repeats(heights, min_len, last);
        assert forall|k: int| kept.len() <= k < heights.len() implies Some(
            #[trigger] heights[k],
        ) == last by {
            if k < front.len() {
                assert(front[k] == heights[k]);
            }
        }
    }
}

/// A block keeps as many heights as it was laid out into the last time.
pub proof fn law_spill_keeps_its_number_of_regions(
    spill: SpillModel,
    regions: RegionsModel,
    frames: Seq<Frame>,
)
    ensures
        spill.next_frame(regions, frames) matches Ok((_, Some(rest))) ==> {
            let passed = spill.pod(regions).backlog.len();
            rest.min_backlog_len == if passed > spill.min_backlog_len {
                passed
            } else {
                spill.min_backlog_len
            }
        },
{
}

} // verus!
