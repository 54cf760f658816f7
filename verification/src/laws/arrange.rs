//! Laws of the arrangement of a region's items into its frame.
use vstd::arithmetic::div_mod::{lemma_fundamental_div_mod, lemma_fundamental_div_mod_converse};
use vstd::prelude::*;

use crate::child::{PlacedChild, SingleChild};
use crate::distribute::finalize::{
    arrangement, division, fr_blocks, region_frame, total_fr, used_height, used_width, widened,
    Arrangement, Division,
};
use crate::distribute::{DistModel, SnapshotModel};
use crate::engine::{AnswerModel, EngineModel, ErrorModel, RequestModel, StopModel};
use crate::frame::{Frame, FrameItem, RegionFrameModel, Tag};
use crate::geom::{Abs, Axes, FixedAlignment, Fr, Point, Smart};
use crate::item::{has_frame, Item};
use crate::laws::dialogue::{comes_next, further, is_open};
use crate::laws::placing::tag_items;
use crate::region::Region;
use crate::work::WorkModel;

verus! {

/// The frame of a region is never larger than the region.
pub proof fn law_frame_stays_within_region(
    region: Region,
    items: Seq<Item>,
    fr_frames: Seq<Frame>,
    used_x: Abs,
)
    ensures
        ({
            let frame = region_frame(division(region, items), items, fr_frames, used_x);
            &&& frame.size.x.0 <= region.size.x.0
            &&& frame.size.y.0 <= region.size.y.0
            &&& region.expand.x ==> frame.size.x == region.size.x
            &&& region.expand.y ==> frame.size.y == region.size.y
        }),
{
}

/// Floats that text wraps around, placed children and tags take up no space: what follows them is
/// positioned as if they were not there.
pub proof fn law_floating_items_take_no_space(
    arrangement: Arrangement,
    items: Seq<Item>,
    item: Item,
)
    requires
        item is WrapFloat || item is Placed || item is Tag,
    ensures
        arrangement.offset(items.push(item)) == arrangement.offset(items),
        arrangement.ruler(items.push(item)) == arrangement.ruler(items),
        used_height(items.push(item)) == used_height(items),
        used_width(items.push(item)) == used_width(items),
{
    assert(items.push(item).drop_last() =~= items);
}

/// Without fractions, the items end where the used height does.
pub proof fn law_offset_is_used_height(arrangement: Arrangement, items: Seq<Item>)
    requires
        arrangement.space == Abs(0),
    ensures
        arrangement.offset(items) == used_height(items),
    decreases items.len(),
{
    if items.len() > 0 {
        law_offset_is_used_height(arrangement, items.drop_last());
        if let Item::Fr(fr, _, _) = items.last() {
            assert(fr.0 * 0 == 0);
            assert(fr.share(arrangement.total, Abs(0)) == Abs(0));
        }
    }
}

/// Items with extents that are not negative only move what follows them down.
proof fn lemma_offset_grows(arrangement: Arrangement, items: Seq<Item>, n: int, m: int)
    requires
        0 <= n <= m <= items.len(),
        forall|k: int| n <= k < m ==> arrangement.extent(#[trigger] items[k]).0 >= 0,
    ensures
        arrangement.offset(items.take(n)).0 <= arrangement.offset(items.take(m)).0,
    decreases m,
{
    if n < m {
        lemma_offset_grows(arrangement, items, n, m - 1);
        assert(items.take(m).drop_last() =~= items.take(m - 1));
        assert(items.take(m).last() == items[m - 1]);
        assert(arrangement.extent(items[m - 1]).0 >= 0);
    }
}

/// The alignment in force only gets later.
proof fn lemma_ruler_grows(arrangement: Arrangement, items: Seq<Item>, n: int, m: int)
    requires
        0 <= n <= m <= items.len(),
        arrangement.free.0 >= 0,
    ensures
        arrangement.ruler(items.take(n)).position(arrangement.free).0 <= arrangement.ruler(
            items.take(m),
        ).position(arrangement.free).0,
    decreases m,
{
    if n < m {
        lemma_ruler_grows(arrangement, items, n, m - 1);
        assert(items.take(m).drop_last() =~= items.take(m - 1));
    }
}

/// The position of an in-flow frame.
pub open spec fn frame_y(arrangement: Arrangement, items: Seq<Item>, i: int) -> Abs {
    arrangement.flow_y(items.take(i), items.take(i + 1))
}

/// Tags, placed children and floats that text wraps around do not move what follows them.
proof fn lemma_offset_kept(arrangement: Arrangement, items: Seq<Item>, n: int, m: int)
    requires
        0 <= n <= m <= items.len(),
        forall|k: int|
            n <= k < m ==> (#[trigger] items[k]) is WrapFloat || items[k] is Placed
                || items[k] is Tag,
    ensures
        arrangement.offset(items.take(m)) == arrangement.offset(items.take(n)),
    decreases m,
{
    if n < m {
        lemma_offset_kept(arrangement, items, n, m - 1);
        assert(items.take(m).drop_last() =~= items.take(m - 1));
        assert(items.take(m).last() == items[m - 1]);
    }
}

/// A float is level with the first line beside it, but for its anchor: where only tags, placed
/// children and further such floats stand between the two, both are drawn at the same offset. The
/// line is moved on by what its vertical alignment asks for, the float is not.
pub proof fn law_float_is_level_with_first_line(
    arrangement: Arrangement,
    items: Seq<Item>,
    fr_frames: Seq<Frame>,
    i: int,
    j: int,
)
    requires
        0 <= i < j < items.len(),
        items[i] is WrapFloat,
        items[j] is Frame,
        forall|k: int|
            i < k < j ==> (#[trigger] items[k]) is WrapFloat || items[k] is Placed
                || items[k] is Tag,
    ensures
        ({
            let moved = arrangement.ruler(items.take(j + 1)).position(arrangement.free);
            let line_y = frame_y(arrangement, items, j);
            let anchor = items[i]->WrapFloat_2;
            arrangement.entry(items.take(i + 1), fr_frames) matches Some((point, _)) && {
                &&& point.y == arrangement.offset(items.take(i)).plus(anchor)
                &&& line_y == arrangement.offset(items.take(i)).plus(moved)
                &&& moved == Abs(0) ==> point.y == line_y.plus(anchor)
            }
        }),
{
    lemma_offset_kept(arrangement, items, i, j);
    assert(items.take(i + 1).drop_last() =~= items.take(i));
    assert(items.take(i + 1).last() == items[i]);
}

/// In-flow frames do not overlap: each one starts at or below the bottom of every frame before it,
/// as long as no extent is negative and the items fit.
pub proof fn law_frames_do_not_overlap(
    arrangement: Arrangement,
    items: Seq<Item>,
    i: int,
    j: int,
)
    requires
        0 <= i < j < items.len(),
        items[i] is Frame,
        items[j] is Frame,
        arrangement.free.0 >= 0,
        arrangement.free.is_finite(),
        forall|k: int| i <= k < j ==> arrangement.extent(#[trigger] items[k]).0 >= 0,
        arrangement.offset(items.take(i)).is_finite(),
        arrangement.offset(items.take(j)).is_finite(),
        frame_y(arrangement, items, i).is_finite(),
        frame_y(arrangement, items, j).is_finite(),
    ensures
        frame_y(arrangement, items, i).0 + items[i]->Frame_0.height().0 <= frame_y(
            arrangement,
            items,
            j,
        ).0,
{
    let height = items[i]->Frame_0.height();
    assert(arrangement.extent(items[i]) == height);
    assert(items.take(i + 1).drop_last() =~= items.take(i));
    assert(items.take(i + 1).last() == items[i]);
    lemma_offset_grows(arrangement, items, i + 1, j);
    lemma_ruler_grows(arrangement, items, i + 1, j + 1);
    assert(arrangement.offset(items.take(i + 1)) == arrangement.offset(items.take(i)).plus(height));
}

/// What is drawn for the first items does not depend on the others.
proof fn lemma_entries_prefix(
    arrangement: Arrangement,
    items: Seq<Item>,
    fr_frames: Seq<Frame>,
    n: int,
)
    requires
        0 <= n <= items.len(),
    ensures
        arrangement.entries(items.take(n), fr_frames).len() <= arrangement.entries(
            items,
            fr_frames,
        ).len(),
        arrangement.entries(items.take(n), fr_frames) == arrangement.entries(items, fr_frames).take(
            arrangement.entries(items.take(n), fr_frames).len() as int,
        ),
    decreases items.len(),
{
    let part = arrangement.entries(items.take(n), fr_frames);
    if n == items.len() {
        assert(items.take(n) =~= items);
        assert(part =~= part.take(part.len() as int));
    } else {
        let front = items.drop_last();
        assert(front.take(n) =~= items.take(n));
        lemma_entries_prefix(arrangement, front, fr_frames, n);
        let all = arrangement.entries(items, fr_frames);
        let most = arrangement.entries(front, fr_frames);
        assert(all.take(part.len() as int) =~= most.take(part.len() as int));
    }
}

/// Items are drawn in the order in which they were added, each at most once.
pub proof fn law_items_are_drawn_in_order(
    arrangement: Arrangement,
    items: Seq<Item>,
    fr_frames: Seq<Frame>,
    i: int,
)
    requires
        0 <= i < items.len(),
    ensures
        ({
            let before = arrangement.entries(items.take(i), fr_frames);
            let all = arrangement.entries(items, fr_frames);
            &&& before == all.take(before.len() as int)
            &&& arrangement.entry(items.take(i + 1), fr_frames) matches Some(entry) ==> before.len()
                < all.len() && all[before.len() as int] == entry
        }),
{
    lemma_entries_prefix(arrangement, items, fr_frames, i);
    lemma_entries_prefix(arrangement, items, fr_frames, i + 1);
    assert(items.take(i + 1).drop_last() =~= items.take(i));
    let all = arrangement.entries(items, fr_frames);
    let upto = arrangement.entries(items.take(i + 1), fr_frames);
    if arrangement.entry(items.take(i + 1), fr_frames) is Some {
        assert(all.take(upto.len() as int)[upto.len() - 1] == upto[upto.len() - 1]);
    }
}

/// The baseline of the region's frame is that of the first in-flow frame: no later frame changes
/// it, whether the first one has a baseline or not.
pub proof fn law_baseline_is_that_of_first_frame(
    arrangement: Arrangement,
    items: Seq<Item>,
    i: int,
)
    requires
        0 <= i < items.len(),
        items[i] is Frame,
        !has_frame(items.take(i)),
    ensures
        arrangement.baseline(items) == match items[i]->Frame_0.baseline {
            Some(baseline) => Some(frame_y(arrangement, items, i).plus(baseline)),
            None => None,
        },
    decreases items.len(),
{
    let front = items.drop_last();
    if i == items.len() - 1 {
        assert(front =~= items.take(i));
        assert(items.take(i + 1) =~= items);
    } else {
        assert(front[i] is Frame);
        assert(front.take(i) =~= items.take(i));
        assert(front.take(i + 1) =~= items.take(i + 1));
        law_baseline_is_that_of_first_frame(arrangement, front, i);
    }
}

/// The sum of the fractions among the items, in raw units.
pub open spec fn fractions(items: Seq<Item>) -> int
    decreases items.len(),
{
    if items.len() == 0 {
        0
    } else {
        fractions(items.drop_last()) + match items.last() {
            Item::Fr(fr, _, _) => fr.0 as int,
            _ => 0,
        }
    }
}

/// How many fractions there are among the items.
pub open spec fn fraction_count(items: Seq<Item>) -> nat
    decreases items.len(),
{
    if items.len() == 0 {
        0
    } else {
        fraction_count(items.drop_last()) + if items.last() is Fr {
            1nat
        } else {
            0nat
        }
    }
}

/// The shares of the fractions among the items, in raw units.
pub open spec fn shares(items: Seq<Item>, total: Fr, space: Abs) -> int
    decreases items.len(),
{
    if items.len() == 0 {
        0
    } else {
        shares(items.drop_last(), total, space) + match items.last() {
            Item::Fr(fr, _, _) => fr.share(total, space).0 as int,
            _ => 0,
        }
    }
}

/// Quotients that are rounded down add up to no more than the quotient of the sum, and to at most
/// one less for two of them.
proof fn lemma_rounding(a: int, b: int, d: int)
    requires
        d > 0,
    ensures
        a / d + b / d <= (a + b) / d <= a / d + b / d + 1,
{
    let (p, q) = (a / d, b / d);
    let (r, s) = (a % d, b % d);
    lemma_fundamental_div_mod(a, d);
    lemma_fundamental_div_mod(b, d);
    assert(a + b == d * (p + q) + (r + s)) by (nonlinear_arith)
        requires
            a == d * p + r,
            b == d * q + s,
    ;
    if r + s < d {
        lemma_fundamental_div_mod_converse(a + b, d, p + q, r + s);
    } else {
        assert(d * (p + q) + (r + s) == d * (p + q + 1) + (r + s - d)) by (nonlinear_arith);
        lemma_fundamental_div_mod_converse(
            a + b,
            d,
            p + q + 1,
            r + s - d,
        );
    }
}

/// The shares of fractions that are not negative add up to their common share, but for rounding.
proof fn lemma_shares(items: Seq<Item>, total: Fr, space: Abs)
    requires
        total.0 > 0,
        space.0 >= 0,
        space.is_finite(),
        forall|k: int|
            0 <= k < items.len() ==> ((#[trigger] items[k]) matches Item::Fr(fr, _, _) ==> 0 <= fr.0
                <= total.0),
    ensures
        ({
            let common = (fractions(items) * space.0) / (total.0 as int);
            &&& fractions(items) >= 0
            &&& common - fraction_count(items) <= shares(items, total, space) <= common
        }),
    decreases items.len(),
{
    let (t, s) = (total.0 as int, space.0 as int);
    if items.len() == 0 {
        assert(0 * s == 0);
        assert(0int / t == 0) by (nonlinear_arith)
            requires
                t > 0,
        ;
    } else {
        let front = items.drop_last();
        assert forall|k: int| 0 <= k < front.len() implies ((#[trigger] front[k]) matches Item::Fr(
            fr,
            _,
            _,
        ) ==> 0 <= fr.0 <= total.0) by {
            assert(front[k] == items[k]);
        }
        lemma_shares(front, total, space);
        if let Item::Fr(fr, _, _) = items[items.len() - 1] {
            let f = fr.0 as int;
            let rest = fractions(front);
            assert((rest + f) * s == rest * s + f * s) by (nonlinear_arith);
            lemma_rounding(rest * s, f * s, t);
            assert(0 <= f * s <= t * s) by (nonlinear_arith)
                requires
                    0 <= f <= t,
                    s >= 0,
            ;
            assert(0 <= (f * s) / t <= s) by (nonlinear_arith)
                requires
                    0 <= f * s <= t * s,
                    t > 0,
            ;
            assert(fr.share(total, space).0 == (f * s) / t);
        }
    }
}

/// The total of fractions that are not negative is exact as long as it does not leave the range of
/// fractions.
proof fn lemma_total_exact(items: Seq<Item>)
    requires
        forall|k: int|
            0 <= k < items.len() ==> ((#[trigger] items[k]) matches Item::Fr(fr, _, _) ==> fr.0
                >= 0),
        fractions(items) < i64::MAX,
    ensures
        total_fr(items).0 == fractions(items),
        fractions(items) >= 0,
        forall|k: int|
            0 <= k < items.len() ==> ((#[trigger] items[k]) matches Item::Fr(fr, _, _) ==> fr.0
                <= fractions(items)),
    decreases items.len(),
{
    if items.len() > 0 {
        let front = items.drop_last();
        assert forall|k: int| 0 <= k < front.len() implies ((#[trigger] front[k]) matches Item::Fr(
            fr,
            _,
            _,
        ) ==> fr.0 >= 0) by {
            assert(front[k] == items[k]);
        }
        assert(items[items.len() - 1] == items.last());
        lemma_total_exact(front);
        assert forall|k: int| 0 <= k < items.len() implies ((#[trigger] items[k]) matches Item::Fr(
            fr,
            _,
            _,
        ) ==> fr.0 <= fractions(items)) by {
            if k < front.len() {
                assert(front[k] == items[k]);
            }
        }
    }
}

/// Fractions share exactly the height that the other items leave free, but for rounding: their
/// shares add up to no more than that, and to less than that by at most one unit for each fraction.
pub proof fn law_fractions_fill_the_region(region: Region, items: Seq<Item>)
    requires
        region.size.y.is_finite(),
        used_height(items).is_finite(),
        used_height(items).0 <= region.size.y.0,
        region.size.y.0 - used_height(items).0 < i64::MAX,
        forall|k: int|
            0 <= k < items.len() ==> ((#[trigger] items[k]) matches Item::Fr(fr, _, _) ==> fr.0
                >= 0),
        0 < fractions(items) < i64::MAX,
    ensures
        ({
            let divided = division(region, items);
            let free = region.size.y.0 - used_height(items).0;
            &&& divided.used_y == region.size.y
            &&& divided.space.0 == free
            &&& free - fraction_count(items) <= shares(items, divided.total, divided.space) <= free
        }),
{
    lemma_total_exact(items);
    let divided = division(region, items);
    lemma_shares(items, divided.total, divided.space);
    let (t, s) = (divided.total.0 as int, divided.space.0 as int);
    assert((t * s) / t == s) by (nonlinear_arith)
        requires
            t > 0,
    ;
}

/// The ruler is at the end once any frame was aligned there, in the middle once one was aligned
/// there and none at the end, and at the start otherwise.
pub proof fn law_ruler_only_moves_on(arrangement: Arrangement, items: Seq<Item>)
    ensures
        arrangement.ruler(items) is End <==> exists|k: int|
            0 <= k < items.len() && ((#[trigger] items[k]) matches Item::Frame(_, align)
                && align.y is End),
        arrangement.ruler(items) is Start <==> forall|k: int|
            0 <= k < items.len() ==> ((#[trigger] items[k]) matches Item::Frame(_, align)
                ==> align.y is Start),
    decreases items.len(),
{
    if items.len() > 0 {
        let front = items.drop_last();
        law_ruler_only_moves_on(arrangement, front);
        let n = front.len() as int;
        assert(items[n] == items.last());
        assert forall|k: int| 0 <= k < n implies front[k] == #[trigger] items[k] by {}
        if arrangement.ruler(front) is End {
            let k = choose|k: int|
                0 <= k < front.len() && ((#[trigger] front[k]) matches Item::Frame(_, align)
                    && align.y is End);
            assert(items[k] == front[k]);
        }
        if exists|k: int|
            0 <= k < items.len() && ((#[trigger] items[k]) matches Item::Frame(_, align)
                && align.y is End) {
            let k = choose|k: int|
                0 <= k < items.len() && ((#[trigger] items[k]) matches Item::Frame(_, align)
                    && align.y is End);
            if k < n {
                assert(front[k] is Frame);
            }
        }
        if !(arrangement.ruler(front) is Start) {
            let k = choose|k: int|
                0 <= k < front.len() && !((#[trigger] front[k]) matches Item::Frame(_, align)
                    ==> align.y is Start);
            assert(items[k] == front[k]);
        } else {
            assert forall|k: int| 0 <= k < n implies ((#[trigger] items[k]) matches Item::Frame(
                _,
                align,
            ) ==> align.y is Start) by {
                assert(front[k] == items[k]);
            }
        }
    }
}

/// Spacing, fractions and frames move what follows them down by their amount, share and height.
pub proof fn law_items_move_what_follows_down(
    arrangement: Arrangement,
    items: Seq<Item>,
    item: Item,
)
    ensures
        arrangement.offset(Seq::empty()) == Abs(0),
        arrangement.offset(items.push(item)) == match item {
            Item::Abs(amount, _) => arrangement.offset(items).plus(amount),
            Item::Fr(fr, _, _) => arrangement.offset(items).plus(
                fr.share(arrangement.total, arrangement.space),
            ),
            Item::Frame(frame, _) => arrangement.offset(items).plus(frame.size.y),
            _ => arrangement.offset(items),
        },
{
    assert(items.push(item).drop_last() =~= items);
}

/// A placed element with a given vertical alignment is drawn at a height that does not depend on
/// the items before it: at the top, in the middle or at the bottom of the frame. Only one without
/// is drawn at the position of the flow. Horizontally, it is drawn on its side. Its displacement
/// is added, of which the relative parts refer to the frame.
pub proof fn law_placed_is_drawn_where_it_is_aligned(
    arrangement: Arrangement,
    items: Seq<Item>,
    others: Seq<Item>,
    fr_frames: Seq<Frame>,
    frame: Frame,
    placed: PlacedChild,
)
    ensures
        ({
            let free_x = arrangement.size.x.minus(frame.size.x);
            let free_y = arrangement.size.y.minus(frame.size.y);
            let dx = placed.delta.x.relative_to(arrangement.size.x);
            let dy = placed.delta.y.relative_to(arrangement.size.y);
            let ruled = match arrangement.ruler(items) {
                FixedAlignment::Start => Abs(0),
                FixedAlignment::Center => arrangement.free.half(),
                FixedAlignment::End => arrangement.free,
            };
            let entry = arrangement.entry(items.push(Item::Placed(frame, placed)), fr_frames);
            let other = arrangement.entry(others.push(Item::Placed(frame, placed)), fr_frames);
            &&& entry matches Some((point, drawn)) && {
                &&& drawn == FrameItem::Frame(frame)
                &&& point.x == match placed.align_x {
                    FixedAlignment::Start => Abs(0).plus(dx),
                    FixedAlignment::Center => free_x.half().plus(dx),
                    FixedAlignment::End => free_x.plus(dx),
                }
                &&& point.y == match placed.align_y {
                    Smart::Custom(Some(FixedAlignment::Start)) => Abs(0).plus(dy),
                    Smart::Custom(Some(FixedAlignment::Center)) => free_y.half().plus(dy),
                    Smart::Custom(Some(FixedAlignment::End)) => free_y.plus(dy),
                    _ => arrangement.offset(items).plus(ruled).plus(dy),
                }
            }
            &&& placed.align_y matches Smart::Custom(Some(_)) ==> entry == other
        }),
{
    let item = Item::Placed(frame, placed);
    assert(items.push(item).drop_last() =~= items);
    assert(others.push(item).drop_last() =~= others);
}

/// A frame is drawn on its side, below the items before it, moved on by the ruler. So is a tag, at
/// the left edge. The ruler heeds the frame's own alignment, too.
pub proof fn law_frame_is_drawn_below_what_precedes(
    arrangement: Arrangement,
    items: Seq<Item>,
    fr_frames: Seq<Frame>,
    frame: Frame,
    align: Axes<FixedAlignment>,
    tag: Tag,
)
    ensures
        ({
            let free_x = arrangement.size.x.minus(frame.size.x);
            let ruler = arrangement.ruler(items);
            arrangement.entry(items.push(Item::Frame(frame, align)), fr_frames) == Some(
                (
                    Point {
                        x: match align.x {
                            FixedAlignment::Start => Abs(0),
                            FixedAlignment::Center => free_x.half(),
                            FixedAlignment::End => free_x,
                        },
                        y: arrangement.offset(items).plus(
                            if ruler is End || align.y is End {
                                arrangement.free
                            } else if ruler is Center || align.y is Center {
                                arrangement.free.half()
                            } else {
                                Abs(0)
                            },
                        ),
                    },
                    FrameItem::Frame(frame),
                ),
            )
        }),
        arrangement.entry(items.push(Item::Tag(tag)), fr_frames) == Some(
            (
                Point {
                    x: Abs(0),
                    y: arrangement.offset(items).plus(
                        match arrangement.ruler(items) {
                            FixedAlignment::Start => Abs(0),
                            FixedAlignment::Center => arrangement.free.half(),
                            FixedAlignment::End => arrangement.free,
                        },
                    ),
                },
                FrameItem::Tag(tag),
            ),
        ),
{
    assert(items.push(Item::Frame(frame, align)).drop_last() =~= items);
    assert(items.push(Item::Tag(tag)).drop_last() =~= items);
}

/// Spacing is not drawn. A fractional block is drawn on its side, right below the items before it,
/// as the frame that was laid out for it: the first block's frame comes first. A float that text
/// wraps around is drawn on its side, right below the items before it but for its anchor.
pub proof fn law_other_items_are_drawn_at_the_offset(
    arrangement: Arrangement,
    items: Seq<Item>,
    fr_frames: Seq<Frame>,
    amount: Abs,
    fr: Fr,
    weakness: u8,
    single: SingleChild,
    float: Frame,
    side: FixedAlignment,
    anchor: Abs,
)
    ensures
        arrangement.entry(items.push(Item::Abs(amount, weakness)), fr_frames) is None,
        arrangement.entry(items.push(Item::Fr(fr, weakness, None)), fr_frames) is None,
        ({
            let frame = fr_frames[fr_blocks(items) as int];
            let free_x = arrangement.size.x.minus(frame.size.x);
            arrangement.entry(items.push(Item::Fr(fr, weakness, Some(single))), fr_frames) == Some(
                (
                    Point {
                        x: match single.align.x {
                            FixedAlignment::Start => Abs(0),
                            FixedAlignment::Center => free_x.half(),
                            FixedAlignment::End => free_x,
                        },
                        y: arrangement.offset(items),
                    },
                    FrameItem::Frame(frame),
                ),
            )
        }),
        ({
            let free_x = arrangement.size.x.minus(float.size.x);
            arrangement.entry(items.push(Item::WrapFloat(float, side, anchor)), fr_frames) == Some(
                (
                    Point {
                        x: match side {
                            FixedAlignment::Start => Abs(0),
                            FixedAlignment::Center => free_x.half(),
                            FixedAlignment::End => free_x,
                        },
                        y: arrangement.offset(items).plus(anchor),
                    },
                    FrameItem::Frame(float),
                ),
            )
        }),
        fr_blocks(Seq::empty()) == 0,
        fr_blocks(items.push(Item::Fr(fr, weakness, Some(single)))) == fr_blocks(items) + 1,
        fr_blocks(items.push(Item::Fr(fr, weakness, None))) == fr_blocks(items),
        fr_blocks(items.push(Item::Abs(amount, weakness))) == fr_blocks(items),
        fr_blocks(items.push(Item::WrapFloat(float, side, anchor))) == fr_blocks(items),
{
    assert(items.push(Item::Abs(amount, weakness)).drop_last() =~= items);
    assert(items.push(Item::Fr(fr, weakness, None)).drop_last() =~= items);
    assert(items.push(Item::Fr(fr, weakness, Some(single))).drop_last() =~= items);
    assert(items.push(Item::WrapFloat(float, side, anchor)).drop_last() =~= items);
}

/// A fractional block is laid out anew into its share of the space and the full width of the
/// region, after those before it. Nothing else is laid out again.
pub proof fn law_fractional_block_fills_its_share(
    division: Division,
    engine: EngineModel,
    items: Seq<Item>,
    n: nat,
    frames: Seq<Frame>,
    frame: Frame,
)
    requires
        n < items.len(),
    ensures
        division.fr_frames(engine, items, 0) == (
            engine,
            Ok::<Seq<Frame>, ErrorModel>(Seq::empty()),
        ),
        division.fr_frames(engine, items, n) matches (asked, Ok(before)) ==> {
            let after = division.fr_frames(engine, items, n + 1);
            match items[n as int] {
                Item::Fr(fr, _, Some(single)) => {
                    &&& is_open(asked) ==> after == (
                        asked,
                        Err::<Seq<Frame>, ErrorModel>(
                            ErrorModel::Unanswered(
                                RequestModel::Single {
                                    single,
                                    region: Region {
                                        size: Axes {
                                            x: division.region.size.x,
                                            y: fr.share(division.total, division.space),
                                        },
                                        expand: Axes {
                                            x: division.region.expand.x,
                                            y: division.region.expand.y && single.alone,
                                        },
                                    },
                                },
                            ),
                        ),
                    )
                    &&& comes_next(asked, seq![AnswerModel::Frame(frame)]) ==> after == (
                        further(asked, 1),
                        Ok::<Seq<Frame>, ErrorModel>(before.push(frame)),
                    )
                },
                _ => after == (asked, Ok::<Seq<Frame>, ErrorModel>(before)),
            }
        },
{
    if let (asked, Ok(_)) = division.fr_frames(engine, items, n) {
        let answers = seq![AnswerModel::Frame(frame)];
        if comes_next(asked, answers) {
            assert(answers[0] == asked.answers[asked.next as int]);
        }
    }
}

/// The height that items use is that of the spacing and frames among them. The width that they use
/// is that of the widest frame.
pub proof fn law_used_space_is_that_of_frames_and_spacing(items: Seq<Item>, item: Item, k: int)
    requires
        0 <= k < items.len(),
    ensures
        used_height(Seq::empty()) == Abs(0),
        used_height(items.push(item)) == match item {
            Item::Abs(amount, _) => used_height(items).plus(amount),
            Item::Frame(frame, _) => used_height(items).plus(frame.size.y),
            _ => used_height(items),
        },
        items[k] matches Item::Frame(frame, _) ==> frame.size.x.0 <= used_width(items).0,
        used_width(items).0 >= 0,
        used_width(items).0 > 0 ==> exists|j: int|
            0 <= j < items.len() && ((#[trigger] items[j]) matches Item::Frame(frame, _)
                && frame.size.x == used_width(items)),
    decreases items.len(),
{
    assert(items.push(item).drop_last() =~= items);
    let front = items.drop_last();
    assert(items[items.len() - 1] == items.last());
    if front.len() > 0 {
        let i = if k < front.len() {
            k
        } else {
            0
        };
        assert(front[i] == items[i]);
        law_used_space_is_that_of_frames_and_spacing(front, item, i);
        if used_width(front).0 > 0 {
            let j = choose|j: int|
                0 <= j < front.len() && ((#[trigger] front[j]) matches Item::Frame(frame, _)
                    && frame.size.x == used_width(front));
            assert(items[j] == front[j]);
        }
    }
}

/// A width is widened to that of the widest frame.
pub proof fn law_frames_widen(width: Abs, frames: Seq<Frame>, k: int)
    requires
        0 <= k < frames.len(),
    ensures
        width.0 <= widened(width, frames).0,
        frames[k].size.x.0 <= widened(width, frames).0,
        widened(width, frames) == width || exists|j: int|
            0 <= j < frames.len() && (#[trigger] frames[j]).size.x == widened(width, frames),
        widened(width, Seq::empty()) == width,
    decreases frames.len(),
{
    let front = frames.drop_last();
    assert(frames[frames.len() - 1] == frames.last());
    if front.len() > 0 {
        let i = if k < front.len() {
            k
        } else {
            0
        };
        law_frames_widen(width, front, i);
        assert(front[i] == frames[i]);
        if widened(width, front) != width {
            let j = choose|j: int|
                0 <= j < front.len() && (#[trigger] front[j]).size.x == widened(width, front);
            assert(frames[j] == front[j]);
        }
    }
}

/// Without fractions, or in a region of infinite height, fractions share nothing and only the items
/// use height. The free height is what the frame has beyond what is used.
pub proof fn law_region_without_fractions_is_as_high_as_its_items(
    region: Region,
    items: Seq<Item>,
    used_x: Abs,
)
    ensures
        ({
            let divided = division(region, items);
            let arranged = arrangement(divided, used_x);
            &&& divided.region == region
            &&& divided.total == total_fr(items)
            &&& arranged.total == total_fr(items)
            &&& arranged.space == divided.space
            &&& total_fr(items).0 <= 0 || !region.size.y.is_finite() ==> divided.space == Abs(0)
                && divided.used_y == used_height(items)
            &&& arranged.free == arranged.size.y.minus(divided.used_y)
            &&& arranged.size.x == if region.expand.x || used_x.0 > region.size.x.0 {
                region.size.x
            } else {
                used_x
            }
            &&& arranged.size.y == if region.expand.y || divided.used_y.0 > region.size.y.0 {
                region.size.y
            } else {
                divided.used_y
            }
        }),
{
}

/// The sum of all fractions counts those of spacing and of blocks.
pub proof fn law_all_fractions_are_summed(items: Seq<Item>, item: Item)
    ensures
        total_fr(Seq::empty()) == Fr(0),
        total_fr(items.push(item)) == match item {
            Item::Fr(fr, _, _) => total_fr(items).plus(fr),
            _ => total_fr(items),
        },
{
    assert(items.push(item).drop_last() =~= items);
}

/// A region that does not expand horizontally is at least as wide as its insertions, as far as
/// there is room. They are asked for once its items are complete. One that does expand asks for
/// nothing.
pub proof fn law_region_is_as_wide_as_its_insertions(
    state: DistModel,
    region: Region,
    fr_frames: Seq<Frame>,
    width: Abs,
)
    requires
        division(region, state.items).fr_frames(
            state.composer.engine,
            state.items,
            state.items.len(),
        ).1 == Ok::<Seq<Frame>, ErrorModel>(fr_frames),
    ensures
        ({
            let divided = division(region, state.items);
            let engine = divided.fr_frames(
                state.composer.engine,
                state.items,
                state.items.len(),
            ).0;
            let inner = widened(used_width(state.items), fr_frames);
            let (after, result) = state.arranged(region);
            &&& after.work == state.composer.work
            &&& region.expand.x ==> after.engine == engine && (result matches Ok(frame)
                && frame.size.x == region.size.x)
            &&& !region.expand.x && is_open(engine) ==> result == Err::<
                RegionFrameModel,
                StopModel,
            >(StopModel::Error(ErrorModel::Unanswered(RequestModel::InsertionWidth)))
            &&& !region.expand.x && comes_next(engine, seq![AnswerModel::Width(width)])
                ==> after.engine == further(engine, 1) && (result matches Ok(frame) && frame.size.x
                == inner.max(width).min(region.size.x))
            &&& result matches Ok(frame) ==> exists|used_x: Abs|
                {
                    let arranged = #[trigger] arrangement(divided, used_x);
                    &&& frame.size == arranged.size
                    &&& frame.baseline == arranged.baseline(state.items)
                    &&& frame.items == arranged.entries(state.items, fr_frames)
                }
        }),
{
    let divided = division(region, state.items);
    let engine = divided.fr_frames(state.composer.engine, state.items, state.items.len()).0;
    let answers = seq![AnswerModel::Width(width)];
    if comes_next(engine, answers) {
        assert(answers[0] == engine.answers[engine.next as int]);
    }
    let inner = widened(used_width(state.items), fr_frames);
    if let Ok(frame) = state.arranged(region).1 {
        let used_x = if region.expand.x {
            inner
        } else {
            match engine.ask_width(RequestModel::InsertionWidth).1 {
                Ok(insertions) => inner.max(insertions),
                Err(_) => inner,
            }
        };
        let arranged = arrangement(divided, used_x);
        assert(frame.size == arranged.size);
    }
}

/// Only tags, placed elements that do not float, and frames without size that draw nothing but
/// links and tags may migrate.
pub proof fn law_what_may_migrate(item: Item)
    ensures
        item.migratable() <==> {
            ||| item is Tag
            ||| item matches Item::Placed(_, placed) && !placed.float
            ||| item matches Item::Frame(frame, _) && frame.size.x == Abs(0) && frame.size.y == Abs(
                0,
            ) && (frame.content is Empty || frame.content is Bare)
        },
{
}

/// At a forced end nothing is taken back: the tags that wait come out, and only weak spacing at the
/// end goes. At any other end, too, all items stay unless all of them may migrate or the items end
/// on a group of sticky blocks.
pub proof fn law_end_of_region_keeps_items(state: DistModel, init: SnapshotModel)
    ensures
        state.settled(init, true) == state.with_tags_flushed().trimmed(),
        state.settled(init, true).composer.work == (WorkModel {
            tags: Seq::empty(),
            ..state.composer.work
        }),
        state.with_tags_flushed().items == state.items + tag_items(state.composer.work.tags),
        state.sticky is None && (state.items.len() == 0 || exists|k: int|
            0 <= k < state.items.len() && !(#[trigger] state.items[k]).migratable())
            ==> state.settled(init, false) == state.trimmed(),
        state.trimmed().composer == state.composer,
{
}

} // verus!
