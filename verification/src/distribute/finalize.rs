//! The arrangement of a region's items into its frame.
use vstd::prelude::*;

use super::{DistModel, DistributionSnapshot, Distributor, SnapshotModel};
use crate::engine::{
    viewed, Engine, EngineModel, ErrorModel, RequestModel, SourceError, Stop, StopModel,
};
use crate::frame::{Frame, FrameItem, RegionFrame, RegionFrameModel};
use crate::geom::{Abs, Axes, FixedAlignment, Fr, Point, Size, Smart};
use crate::item::{all_migratable, every_migratable, has_frame, Item};
use crate::region::Region;
use crate::work::{Composer, ComposerModel};

verus! {

/// The height that the items take up, not counting fractions.
pub open spec fn used_height(items: Seq<Item>) -> Abs
    decreases items.len(),
{
    if items.len() == 0 {
        Abs(0)
    } else {
        let before = used_height(items.drop_last());
        match items.last() {
            Item::Abs(amount, _) => before.plus(amount),
            Item::Frame(frame, _) => before.plus(frame.height()),
            _ => before,
        }
    }
}

/// The width of the widest in-flow frame.
pub open spec fn used_width(items: Seq<Item>) -> Abs
    decreases items.len(),
{
    if items.len() == 0 {
        Abs(0)
    } else {
        let before = used_width(items.drop_last());
        match items.last() {
            Item::Frame(frame, _) => before.max(frame.width()),
            _ => before,
        }
    }
}

/// The sum of all fractions.
pub open spec fn total_fr(items: Seq<Item>) -> Fr
    decreases items.len(),
{
    if items.len() == 0 {
        Fr(0)
    } else {
        let before = total_fr(items.drop_last());
        match items.last() {
            Item::Fr(fr, _, _) => before.plus(fr),
            _ => before,
        }
    }
}

/// How many fractional blocks there are.
pub open spec fn fr_blocks(items: Seq<Item>) -> nat
    decreases items.len(),
{
    if items.len() == 0 {
        0
    } else {
        let before = fr_blocks(items.drop_last());
        match items.last() {
            Item::Fr(_, _, Some(_)) => before + 1,
            _ => before,
        }
    }
}

/// The largest of a width and those of the frames.
pub open spec fn widened(width: Abs, frames: Seq<Frame>) -> Abs
    decreases frames.len(),
{
    if frames.len() == 0 {
        width
    } else {
        widened(width, frames.drop_last()).max(frames.last().width())
    }
}

/// How the space of a region is divided among its items.
#[derive(Clone, Copy)]
pub struct Division {
    /// The region.
    pub region: Region,
    /// The sum of all fractions.
    pub total: Fr,
    /// The space that the fractions share.
    pub space: Abs,
    /// The height that is used once fractions have their share.
    pub used_y: Abs,
}

/// How the space of a region is divided among the items. Fractions share what remains of a finite
/// region.
pub open spec fn division(region: Region, items: Seq<Item>) -> Division {
    let used = used_height(items);
    let total = total_fr(items);
    if total.0 > 0 && region.size.y.is_finite() {
        Division { region, total, space: region.size.y.minus(used), used_y: region.size.y }
    } else {
        Division { region, total, space: Abs(0), used_y: used }
    }
}

impl Division {
    /// The frames of the fractional blocks among the first `n` items, each laid out into its share
    /// of the space.
    pub open spec fn fr_frames(self, engine: EngineModel, items: Seq<Item>, n: nat) -> (
        EngineModel,
        Result<Seq<Frame>, ErrorModel>,
    )
        decreases n,
    {
        if n == 0 {
            (engine, Ok(Seq::empty()))
        } else {
            match self.fr_frames(engine, items, (n - 1) as nat) {
                (engine, Err(error)) => (engine, Err(error)),
                (engine, Ok(frames)) => match items[n - 1] {
                    Item::Fr(fr, _, Some(single)) => {
                        let pod = Region {
                            size: Axes {
                                x: self.region.size.x,
                                y: fr.share(self.total, self.space),
                            },
                            expand: self.region.expand,
                        };
                        match engine.ask_frame(
                            RequestModel::Single { single, region: single.pod(pod) },
                        ) {
                            (engine, Ok(frame)) => (engine, Ok(frames.push(frame))),
                            (engine, Err(error)) => (engine, Err(error)),
                        }
                    },
                    _ => (engine, Ok(frames)),
                },
            }
        }
    }
}

/// What the positions of the items depend on.
pub struct Arrangement {
    /// The size of the frame.
    pub size: Size,
    /// The height that is left free.
    pub free: Abs,
    /// The sum of all fractions.
    pub total: Fr,
    /// The space that the fractions share.
    pub space: Abs,
}

impl Arrangement {
    /// How far an item moves those after it down.
    pub open spec fn extent(self, item: Item) -> Abs {
        match item {
            Item::Abs(amount, _) => amount,
            Item::Fr(fr, _, _) => fr.share(self.total, self.space),
            Item::Frame(frame, _) => frame.height(),
            _ => Abs(0),
        }
    }

    /// The offset after the items. Floats that text wraps around, placed children and tags do not
    /// advance it.
    pub open spec fn offset(self, items: Seq<Item>) -> Abs
        decreases items.len(),
    {
        if items.len() == 0 {
            Abs(0)
        } else {
            let before = self.offset(items.drop_last());
            match items.last() {
                Item::Abs(..) | Item::Fr(..) | Item::Frame(..) => before.plus(
                    self.extent(items.last()),
                ),
                _ => before,
            }
        }
    }

    /// The vertical alignment in force after the items: the latest of all frames.
    pub open spec fn ruler(self, items: Seq<Item>) -> FixedAlignment
        decreases items.len(),
    {
        if items.len() == 0 {
            FixedAlignment::Start
        } else {
            let before = self.ruler(items.drop_last());
            match items.last() {
                Item::Frame(_, align) => before.latest(align.y),
                _ => before,
            }
        }
    }

    /// The position in the flow after the items `before`, with the ruler as after `items`.
    pub open spec fn flow_y(self, before: Seq<Item>, items: Seq<Item>) -> Abs {
        self.offset(before).plus(self.ruler(items).position(self.free))
    }

    /// What is drawn for the last of the items, and where.
    pub open spec fn entry(self, items: Seq<Item>, fr_frames: Seq<Frame>) -> Option<
        (Point, FrameItem),
    > {
        let before = items.drop_last();
        match items.last() {
            Item::Tag(tag) => Some(
                (Point { x: Abs(0), y: self.flow_y(before, items) }, FrameItem::Tag(tag)),
            ),
            Item::Abs(..) => None,
            Item::Fr(_, _, None) => None,
            Item::Fr(_, _, Some(single)) => {
                let frame = fr_frames[fr_blocks(before) as int];
                Some(
                    (
                        Point {
                            x: single.align.x.position(self.size.x.minus(frame.width())),
                            y: self.offset(before),
                        },
                        FrameItem::Frame(frame),
                    ),
                )
            },
            Item::Frame(frame, align) => Some(
                (
                    Point {
                        x: align.x.position(self.size.x.minus(frame.width())),
                        y: self.flow_y(before, items),
                    },
                    FrameItem::Frame(frame),
                ),
            ),
            Item::Placed(frame, placed) => {
                let y = match placed.align_y {
                    Smart::Custom(Some(align)) => align.position(
                        self.size.y.minus(frame.height()),
                    ),
                    _ => self.flow_y(before, items),
                };
                Some(
                    (
                        Point {
                            x: placed.align_x.position(self.size.x.minus(frame.width())).plus(
                                placed.delta.x.relative_to(self.size.x),
                            ),
                            y: y.plus(placed.delta.y.relative_to(self.size.y)),
                        },
                        FrameItem::Frame(frame),
                    ),
                )
            },
            Item::WrapFloat(frame, side, y_delta) => Some(
                (
                    Point {
                        x: side.position(self.size.x.minus(frame.width())),
                        y: self.offset(before).plus(y_delta),
                    },
                    FrameItem::Frame(frame),
                ),
            ),
        }
    }

    /// All that is drawn for the items.
    pub open spec fn entries(self, items: Seq<Item>, fr_frames: Seq<Frame>) -> Seq<
        (Point, FrameItem),
    >
        decreases items.len(),
    {
        if items.len() == 0 {
            Seq::empty()
        } else {
            let before = self.entries(items.drop_last(), fr_frames);
            match self.entry(items, fr_frames) {
                Some(entry) => before.push(entry),
                None => before,
            }
        }
    }

    /// The baseline of the frame: that of the first in-flow frame, if it has one.
    pub open spec fn baseline(self, items: Seq<Item>) -> Option<Abs>
        decreases items.len(),
    {
        if items.len() == 0 {
            None
        } else if has_frame(items.drop_last()) {
            self.baseline(items.drop_last())
        } else {
            match items.last() {
                Item::Frame(frame, _) => match frame.baseline {
                    Some(baseline) => Some(self.flow_y(items.drop_last(), items).plus(baseline)),
                    None => None,
                },
                _ => None,
            }
        }
    }
}

impl DistModel {
    /// With items that belong to the next region taken back, and without weak spacing at the end.
    ///
    /// At the very end of the flow nothing is taken back and the tags that wait come out. Else,
    /// if all items are migratable, all are taken back. Else, if the items end on sticky blocks,
    /// those are.
    pub open spec fn settled(self, init: SnapshotModel, forced: bool) -> DistModel {
        let state = if forced {
            self.with_tags_flushed()
        } else if self.items.len() > 0 && all_migratable(self.items) {
            self.restored(init)
        } else {
            match self.sticky {
                Some(snapshot) => (DistModel { sticky: None, ..self }).restored(snapshot),
                None => self,
            }
        };
        state.trimmed()
    }

    /// The arrangement of the items, and what they look like.
    pub open spec fn arranged(self, region: Region) -> (ComposerModel, Result<
        RegionFrameModel,
        StopModel,
    >) {
        let division = division(region, self.items);
        match division.fr_frames(self.composer.engine, self.items, self.items.len()) {
            (engine, Err(error)) => (
                ComposerModel { engine, ..self.composer },
                Err(StopModel::Error(error)),
            ),
            (engine, Ok(fr_frames)) => {
                let width = widened(used_width(self.items), fr_frames);
                if region.expand.x {
                    (
                        ComposerModel { engine, ..self.composer },
                        Ok(region_frame(division, self.items, fr_frames, width)),
                    )
                } else {
                    // Also consider the width of insertions for alignment.
                    match engine.ask_width(RequestModel::InsertionWidth) {
                        (engine, Err(error)) => (
                            ComposerModel { engine, ..self.composer },
                            Err(StopModel::Error(error)),
                        ),
                        (engine, Ok(insertions)) => (
                            ComposerModel { engine, ..self.composer },
                            Ok(
                                region_frame(
                                    division,
                                    self.items,
                                    fr_frames,
                                    width.max(insertions),
                                ),
                            ),
                        ),
                    }
                }
            },
        }
    }

    /// The frame for the items of a finished region.
    pub open spec fn finalized(self, region: Region, init: SnapshotModel, forced: bool) -> (
        ComposerModel,
        Result<RegionFrameModel, StopModel>,
    ) {
        self.settled(init, forced).arranged(region)
    }
}

/// The arrangement of items that use the given width.
pub open spec fn arrangement(division: Division, used_x: Abs) -> Arrangement {
    let used = Axes { x: used_x, y: division.used_y };
    let region = division.region;
    let size = region.expand.select(region.size, used.min(region.size));
    Arrangement {
        size,
        free: size.y.minus(division.used_y),
        total: division.total,
        space: division.space,
    }
}

/// The frame for items that use the given width.
pub open spec fn region_frame(
    division: Division,
    items: Seq<Item>,
    fr_frames: Seq<Frame>,
    used_x: Abs,
) -> RegionFrameModel {
    let arrangement = arrangement(division, used_x);
    RegionFrameModel {
        size: arrangement.size,
        baseline: arrangement.baseline(items),
        items: arrangement.entries(items, fr_frames),
    }
}

/// Determines the used space and how the rest is divided.
fn divide(region: Region, items: &Vec<Item>) -> (result: (Division, Abs))
    ensures
        result.0 == division(region, items@),
        result.1 == used_width(items@),
{
    let mut total = Fr(0);
    let mut used_x = Abs::zero();
    let mut used_y = Abs::zero();
    let mut i: usize = 0;
    while i < items.len()
        invariant
            i <= items@.len(),
            total == total_fr(items@.take(i as int)),
            used_x == used_width(items@.take(i as int)),
            used_y == used_height(items@.take(i as int)),
        decreases items@.len() - i,
    {
        assert(items@.take(i + 1).drop_last() =~= items@.take(i as int));
        match items[i] {
            Item::Abs(amount, _) => {
                used_y = used_y + amount;
            },
            Item::Fr(fr, _, _) => {
                total = total + fr;
            },
            Item::Frame(frame, _) => {
                used_y = used_y + frame.height();
                used_x = used_x.max(frame.width());
            },
            // A wrap float contributes no height or width; its space belongs to the paragraph
            // that wraps beside it.
            _ => {},
        }
        i += 1;
    }
    assert(items@.take(i as int) =~= items@);

    // When we have fractional spacing, occupy the remaining space with it.
    if total.0 > 0 && region.size.y.is_finite() {
        (
            Division { region, total, space: region.size.y - used_y, used_y: region.size.y },
            used_x,
        )
    } else {
        (Division { region, total, space: Abs::zero(), used_y }, used_x)
    }
}

/// Once a fractional block could not be laid out, later items do not matter.
proof fn lemma_fr_frames_stops(
    division: Division,
    engine: EngineModel,
    items: Seq<Item>,
    i: nat,
    n: nat,
)
    requires
        i <= n,
    ensures
        division.fr_frames(engine, items, i).1 is Err ==> division.fr_frames(engine, items, n)
            == division.fr_frames(engine, items, i),
    decreases n,
{
    if i < n {
        lemma_fr_frames_stops(division, engine, items, i, (n - 1) as nat);
    }
}

/// Lays out the fractionally sized blocks.
fn layout_fr_blocks(engine: &mut Engine, division: &Division, items: &Vec<Item>) -> (result: Result<
    Vec<Frame>,
    SourceError,
>)
    ensures
        (final(engine)@, viewed(result)) == division.fr_frames(
            old(engine)@,
            items@,
            items@.len(),
        ),
        result matches Ok(frames) ==> frames@.len() == fr_blocks(items@),
{
    let mut frames: Vec<Frame> = Vec::new();
    let mut i: usize = 0;
    while i < items.len()
        invariant
            i <= items@.len(),
            (engine@, Ok::<Seq<Frame>, ErrorModel>(frames@)) == division.fr_frames(
                old(engine)@,
                items@,
                i as nat,
            ),
            frames@.len() == fr_blocks(items@.take(i as int)),
        decreases items@.len() - i,
    {
        proof {
            lemma_fr_frames_stops(
                *division,
                old(engine)@,
                items@,
                (i + 1) as nat,
                items@.len(),
            );
            assert(items@.take(i + 1).drop_last() =~= items@.take(i as int));
        }
        if let Item::Fr(fr, _, Some(single)) = items[i] {
            let length = fr.share(division.total, division.space);
            let pod = Region {
                size: Axes { x: division.region.size.x, y: length },
                expand: division.region.expand,
            };
            match single.layout(engine, pod) {
                Ok(frame) => frames.push(frame),
                Err(error) => return Err(error),
            }
        }
        i += 1;
    }
    assert(items@.take(i as int) =~= items@);
    Ok(frames)
}

/// Positions all items.
fn position_items(arrangement: &Arrangement, items: &Vec<Item>, fr_frames: &Vec<Frame>) -> (result:
    RegionFrame)
    requires
        fr_frames@.len() >= fr_blocks(items@),
    ensures
        result@ == (RegionFrameModel {
            size: arrangement.size,
            baseline: arrangement.baseline(items@),
            items: arrangement.entries(items@, fr_frames@),
        }),
{
    let size = arrangement.size;
    let free = arrangement.free;
    let mut output: Vec<(Point, FrameItem)> = Vec::new();
    let mut baseline: Option<Abs> = None;
    let mut baseline_set = false;
    let mut ruler = FixedAlignment::Start;
    let mut offset = Abs::zero();
    let mut next_fr: usize = 0;
    let mut i: usize = 0;
    while i < items.len()
        invariant
            i <= items@.len(),
            fr_frames@.len() >= fr_blocks(items@),
            size == arrangement.size,
            free == arrangement.free,
            output@ == arrangement.entries(items@.take(i as int), fr_frames@),
            baseline == arrangement.baseline(items@.take(i as int)),
            baseline_set == has_frame(items@.take(i as int)),
            ruler == arrangement.ruler(items@.take(i as int)),
            offset == arrangement.offset(items@.take(i as int)),
            next_fr == fr_blocks(items@.take(i as int)),
        decreases items@.len() - i,
    {
        let ghost before = items@.take(i as int);
        let ghost now = items@.take(i + 1);
        proof {
            assert(now.drop_last() =~= before);
            assert(now.last() == items@[i as int]);
            lemma_fr_blocks_grows(items@, (i + 1) as nat);
            assert(items@[i as int] is Frame ==> has_frame(now)) by {
                assert(now[i as int] == items@[i as int]);
            }
            assert(has_frame(before) ==> has_frame(now)) by {
                if has_frame(before) {
                    let j = choose|j: int| 0 <= j < before.len() && (#[trigger] before[j]) is Frame;
                    assert(now[j] is Frame);
                }
            }
            assert(!(items@[i as int] is Frame) && has_frame(now)
                ==> has_frame(before)) by {
                if has_frame(now) && !(items@[i as int] is Frame) {
                    let j = choose|j: int| 0 <= j < now.len() && (#[trigger] now[j]) is Frame;
                    assert(before[j] is Frame);
                }
            }
        }
        match items[i] {
            Item::Tag(tag) => {
                let y = offset + ruler.position(free);
                output.push((Point { x: Abs::zero(), y }, FrameItem::Tag(tag)));
            },
            Item::Abs(amount, _) => {
                offset = offset + amount;
            },
            Item::Fr(fr, _, single) => {
                let length = fr.share(arrangement.total, arrangement.space);
                if let Some(single) = single {
                    let frame = fr_frames[next_fr];
                    assert(next_fr < fr_frames.len());
                    next_fr += 1;
                    let x = single.align.x.position(size.x - frame.width());
                    output.push((Point { x, y: offset }, FrameItem::Frame(frame)));
                }
                offset = offset + length;
            },
            Item::Frame(frame, align) => {
                ruler = ruler.latest(align.y);
                let x = align.x.position(size.x - frame.width());
                let y = offset + ruler.position(free);
                offset = offset + frame.height();

                // The baseline of the whole region will be set to the baseline of the first
                // in-flow frame. For example, of the first paragraph, if there is more than one.
                // But also, inside the paragraph itself, this will be the first line (since each
                // line is laid out as a separate frame).
                if !baseline_set {
                    baseline = match frame.baseline {
                        Some(inner) => Some(y + inner),
                        None => None,
                    };
                    baseline_set = true;
                }
                output.push((Point { x, y }, FrameItem::Frame(frame)));
            },
            Item::Placed(frame, placed) => {
                let x = placed.align_x.position(size.x - frame.width());
                let y = match placed.align_y {
                    Smart::Custom(Some(align)) => align.position(size.y - frame.height()),
                    _ => offset + ruler.position(free),
                };
                let pos = Point {
                    x: x + placed.delta.x.relative_to(size.x),
                    y: y + placed.delta.y.relative_to(size.y),
                };
                output.push((pos, FrameItem::Frame(frame)));
            },
            Item::WrapFloat(frame, align_x, y_delta) => {
                // Draw the float at the current flow position without advancing the offset, so
                // the following deferred paragraph's first line draws at this same height and
                // wraps beside it, unless its vertical alignment moves it on.
                let x = align_x.position(size.x - frame.width());
                output.push((Point { x, y: offset + y_delta }, FrameItem::Frame(frame)));
            },
        }
        i += 1;
    }
    assert(items@.take(i as int) =~= items@);
    RegionFrame { size, baseline, items: output }
}

/// The fractional blocks among the first items are no more than there are in all.
proof fn lemma_fr_blocks_grows(items: Seq<Item>, n: nat)
    requires
        n <= items.len(),
    ensures
        fr_blocks(items.take(n as int)) <= fr_blocks(items),
    decreases items.len(),
{
    if n < items.len() {
        assert(items.drop_last().take(n as int) =~= items.take(n as int));
        lemma_fr_blocks_grows(items.drop_last(), n);
    } else {
        assert(items.take(n as int) =~= items);
    }
}

impl<'b> Distributor<'b> {
    /// Takes back the items that belong to the next region and trims weak spacing.
    fn settle(&mut self, init: DistributionSnapshot<'b>, forced: bool)
        ensures
            final(self)@ == old(self)@.settled(init@, forced),
    {
        if forced {
            // If this is the very end of the flow, flush pending tags.
            self.flush_tags();
        } else if self.items.len() > 0 && every_migratable(&self.items) {
            // Restore the initial state if all items are migratable.
            self.restore(init);
        } else {
            // If we ended on a sticky block, but are not yet at the end of the flow, restore the
            // saved checkpoint to move the sticky suffix to the next region.
            if let Some(snapshot) = self.sticky.take() {
                self.restore(snapshot);
            }
        }
        self.trim_spacing();
    }

    /// Arranges the produced items into an output frame.
    ///
    /// This performs alignment and resolves fractional spacing and blocks.
    pub fn finalize(
        self,
        region: Region,
        init: DistributionSnapshot<'b>,
        forced: bool,
    ) -> (result: (Composer<'b>, Result<RegionFrame, Stop>))
        ensures
            (result.0@, viewed(result.1)) == self@.finalized(region, init@, forced),
    {
        let mut this = self;
        this.settle(init, forced);
        let mut composer = this.composer;
        let items = this.items;

        // Determine the amount of used space and the sum of fractionals.
        let (division, items_x) = divide(region, &items);
        let mut used_x = items_x;

        // Lay out fractionally sized blocks.
        let fr_frames = match layout_fr_blocks(&mut composer.engine, &division, &items) {
            Ok(frames) => frames,
            Err(error) => return (composer, Err(Stop::Error(error))),
        };
        let mut i: usize = 0;
        while i < fr_frames.len()
            invariant
                i <= fr_frames@.len(),
                used_x == widened(items_x, fr_frames@.take(i as int)),
            decreases fr_frames@.len() - i,
        {
            used_x = used_x.max(fr_frames[i].width());
            i += 1;
            assert(fr_frames@.take(i as int).drop_last() =~= fr_frames@.take(i - 1));
        }
        assert(fr_frames@.take(i as int) =~= fr_frames@);

        // Also consider the width of insertions for alignment.
        if !region.expand.x {
            match composer.insertion_width() {
                Ok(width) => {
                    used_x = used_x.max(width);
                },
                Err(error) => return (composer, Err(Stop::Error(error))),
            }
        }
        // Determine the region's size.
        let used = Axes { x: used_x, y: division.used_y };
        let size = region.expand.select(region.size, used.min(region.size));
        let arrangement = Arrangement {
            size,
            free: size.y - division.used_y,
            total: division.total,
            space: division.space,
        };
        let output = position_items(&arrangement, &items, &fr_frames);
        (composer, Ok(output))
    }
}

} // verus!
