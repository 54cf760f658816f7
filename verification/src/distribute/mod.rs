//! The distribution of a flow's children into a region.
pub mod blocks;
pub mod finalize;
pub mod spacing;
pub mod wrapped;

use vstd::prelude::*;

use crate::child::Child;
use crate::engine::{erred, viewed, Stop, StopModel};
use crate::frame::{Frame, RegionFrame, RegionFrameModel, Tag};
use crate::geom::{Abs, FixedAlignment};
use crate::item::Item;
use crate::laws::steps::{law_child_keeps_the_rest, law_resuming_keeps_the_rest};
use crate::region::{Region, Regions, RegionsModel};
use crate::work::{Composer, ComposerModel, Work, WorkModel};

verus! {

/// A live exclusion band threaded across continuation paragraphs.
///
/// The float is already painted at the opener; continuation paragraphs only narrow their lines
/// beside the band's lower part.
#[derive(Clone, Copy, Debug, PartialEq, Eq, Structural, Hash)]
pub struct ActiveBand {
    /// Unconsumed vertical extent of the band, measured from the top of the next continuation
    /// paragraph.
    pub remaining: Abs,
    /// Horizontal space reserved on `side` (float width + clearance).
    pub inset: Abs,
    /// `Start` for a left float, `End` for a right float.
    pub side: FixedAlignment,
    /// Line pitch (line height + leading), uniform across the run.
    pub pitch: Abs,
    /// Leading between consecutive lines within a paragraph.
    pub leading: Abs,
    /// The single inter-paragraph gap each continuation owns. For a drop cap this is the leading,
    /// so the cap sits beside evenly-leaded lines; for a general float it is the paragraph
    /// spacing, so wrapped paragraphs keep their normal vertical rhythm.
    pub gap: Abs,
}

/// A snapshot of the distribution state.
#[derive(Debug)]
pub struct DistributionSnapshot<'b> {
    /// The work at that point.
    pub work: Work<'b>,
    /// The number of items at that point.
    pub items: usize,
}

/// What a snapshot holds.
#[verifier::ext_equal]
pub struct SnapshotModel {
    /// The work at that point.
    pub work: WorkModel,
    /// The number of items at that point.
    pub items: nat,
}

impl<'b> View for DistributionSnapshot<'b> {
    type V = SnapshotModel;

    open spec fn view(&self) -> SnapshotModel {
        SnapshotModel { work: self.work@, items: self.items as nat }
    }
}

/// An optional snapshot by what it holds.
pub open spec fn snapshot_view(snapshot: Option<DistributionSnapshot>) -> Option<SnapshotModel> {
    match snapshot {
        Some(snapshot) => Some(snapshot@),
        None => None,
    }
}

/// State for distribution.
#[derive(Debug)]
pub struct Distributor<'b> {
    /// The composer that is used to handle insertions.
    pub composer: Composer<'b>,
    /// Regions which are continuously shrunk as new items are added.
    pub regions: Regions,
    /// Already laid out items, not yet aligned.
    pub items: Vec<Item>,
    /// A snapshot which can be restored to migrate a suffix of sticky blocks to the next region.
    pub sticky: Option<DistributionSnapshot<'b>>,
    /// Whether the current group of consecutive sticky blocks are still sticky and may migrate
    /// with the attached frame. This is `None` while we aren't processing sticky blocks. On the
    /// first sticky block, this becomes `Some(true)` if migrating sticky blocks as usual would
    /// make a difference, which is given by `regions.may_progress()`. Otherwise, it is set to
    /// `Some(false)`, which is usually the case when the first sticky block in the group is at
    /// the very top of the page (then, migrating it would just lead us back to the top of the
    /// page). In that case, all sticky blocks of the group are also disabled, until this is reset
    /// to `None` on the first non-sticky frame we find.
    pub stickable: Option<bool>,
    /// The side-wrap float laid out by the immediately-preceding `placed` call, awaiting the
    /// deferred paragraph that wraps beside it.
    pub pending_wrap_float: Option<(Frame, FixedAlignment)>,
    /// An exclusion band that outlived its opener paragraph and continues into the following
    /// paragraphs. A band never crosses a region break.
    pub active_band: Option<ActiveBand>,
}

/// What state a distribution is in.
#[verifier::ext_equal]
pub struct DistModel {
    /// The work and the dialogue about it.
    pub composer: ComposerModel,
    /// The regions with the space that remains.
    pub regions: RegionsModel,
    /// The items so far.
    pub items: Seq<Item>,
    /// Where a suffix of sticky blocks starts.
    pub sticky: Option<SnapshotModel>,
    /// Whether the current group of sticky blocks may migrate.
    pub stickable: Option<bool>,
    /// The float that the next paragraph wraps around.
    pub pending: Option<(Frame, FixedAlignment)>,
    /// The band that outlived its opener paragraph.
    pub band: Option<ActiveBand>,
}

impl<'b> View for Distributor<'b> {
    type V = DistModel;

    open spec fn view(&self) -> DistModel {
        DistModel {
            composer: self.composer@,
            regions: self.regions@,
            items: self.items@,
            sticky: snapshot_view(self.sticky),
            stickable: self.stickable,
            pending: self.pending_wrap_float,
            band: self.active_band,
        }
    }
}

impl DistModel {
    /// The height that remains in the region.
    pub open spec fn y(self) -> Abs {
        self.regions.size.y
    }

    /// With another remaining height.
    pub open spec fn with_y(self, y: Abs) -> DistModel {
        DistModel { regions: self.regions.with_y(y), ..self }
    }

    /// With one more item.
    pub open spec fn pushed(self, item: Item) -> DistModel {
        DistModel { items: self.items.push(item), ..self }
    }

    /// With strong spacing, which takes up space.
    pub open spec fn with_gap(self, gap: Abs) -> DistModel {
        self.with_y(self.y().minus(gap)).pushed(Item::Abs(gap, 0))
    }

    /// With other work.
    pub open spec fn with_work(self, work: WorkModel) -> DistModel {
        DistModel { composer: ComposerModel { work, ..self.composer }, ..self }
    }

    /// With a tag that waits for something to be attached to.
    pub open spec fn with_tag(self, tag: Tag) -> DistModel {
        let work = self.composer.work;
        self.with_work(WorkModel { tags: work.tags.push(tag), ..work })
    }

    /// With items for the tags that wait.
    pub open spec fn with_tags_flushed(self) -> DistModel {
        let work = self.composer.work;
        DistModel {
            items: self.items + work.tags.map_values(|tag: Tag| Item::Tag(tag)),
            ..self.with_work(WorkModel { tags: Seq::empty(), ..work })
        }
    }

    /// With a live band that the child does not continue cleared: what is left of it is reserved
    /// with a strong gap so that the child can't overlap the float. Tags pass through.
    pub open spec fn with_band_cleared(self, child: Child) -> DistModel {
        let passes = match child {
            Child::Tag(_) => true,
            Child::Deferred(d) => d.continuation,
            _ => false,
        };
        match self.band {
            Some(band) => if passes {
                self
            } else {
                (DistModel { band: None, ..self }).with_gap(band.remaining)
            },
            None => self,
        }
    }

    /// With a single child.
    pub open spec fn with_child(self, child: Child) -> (DistModel, Result<(), StopModel>) {
        let state = self.with_band_cleared(child);
        match child {
            Child::Tag(tag) => (state.with_tag(tag), Ok(())),
            Child::Rel(amount, weakness) => (state.with_rel(amount, weakness), Ok(())),
            Child::Fr(fr, weakness) => (state.with_fr(fr, weakness), Ok(())),
            Child::Line(line) => state.with_line(line),
            Child::Single(single) => state.with_single(single),
            Child::Multi(multi) => state.with_multi(multi),
            Child::Placed(placed) => state.with_placed(placed),
            Child::Deferred(d) => if d.continuation && state.band is Some {
                state.with_continuation_par(d)
            } else {
                state.with_deferred_par(d)
            },
            Child::Flush => state.with_flush(),
            Child::Break(weak) => state.with_break(weak),
        }
    }

    /// With the given children from index `k` on, until one stops the distribution.
    pub open spec fn with_children(self, children: Seq<Child>, k: int) -> (
        DistModel,
        Result<(), StopModel>,
    )
        decreases children.len() - k,
    {
        if k >= children.len() {
            (self, Ok(()))
        } else {
            match self.with_child(children[k]) {
                (state, Ok(())) => state.with_work(state.composer.work.advanced()).with_children(
                    children,
                    k + 1,
                ),
                (state, Err(stop)) => (state, Err(stop)),
            }
        }
    }

    /// With what spilled over from a breakable block, if anything did.
    pub open spec fn with_block_resumed(self) -> (DistModel, Result<(), StopModel>) {
        match self.composer.work.spill {
            Some(spill) => self.with_spill(None).with_multi_spill(spill),
            None => (self, Ok(())),
        }
    }

    /// With carried lines of a paragraph, if there are any.
    pub open spec fn with_par_resumed(self) -> (DistModel, Result<(), StopModel>) {
        match self.composer.work.wrap_spill {
            Some(spill) => self.with_work(
                WorkModel { wrap_spill: None, ..self.composer.work },
            ).with_wrap_spill(spill),
            None => (self, Ok(())),
        }
    }

    /// With as much content as fits: first what is left from the previous region, then the
    /// children in order.
    pub open spec fn run(self) -> (DistModel, Result<(), StopModel>) {
        match self.with_block_resumed() {
            (state, Err(stop)) => (state, Err(stop)),
            (state, Ok(())) => match state.with_par_resumed() {
                (state, Err(stop)) => (state, Err(stop)),
                (state, Ok(())) => state.with_children(
                    state.composer.work.children,
                    state.composer.work.head as int,
                ),
            },
        }
    }

    /// A snapshot of the work and items.
    pub open spec fn snapshot(self) -> SnapshotModel {
        SnapshotModel { work: self.composer.work, items: self.items.len() }
    }

    /// With a snapshot of the work and items restored.
    pub open spec fn restored(self, snapshot: SnapshotModel) -> DistModel {
        DistModel {
            items: if snapshot.items <= self.items.len() {
                self.items.take(snapshot.items as int)
            } else {
                self.items
            },
            ..self.with_work(snapshot.work)
        }
    }
}

/// A distribution that has not started.
pub open spec fn distribution(composer: ComposerModel, regions: RegionsModel) -> DistModel {
    DistModel {
        composer,
        regions,
        items: Seq::empty(),
        sticky: None,
        stickable: None,
        pending: None,
        band: None,
    }
}

/// The outcome of a distribution. A run that completes is forced if no work is left at all.
pub open spec fn distributed(composer: ComposerModel, regions: RegionsModel) -> (
    ComposerModel,
    Result<RegionFrameModel, StopModel>,
) {
    let start = distribution(composer, regions);
    let region = Region { size: regions.size, expand: regions.expand };
    match start.run() {
        (state, Ok(())) => state.finalized(
            region,
            start.snapshot(),
            state.composer.work.done(),
        ),
        (state, Err(StopModel::Finish(forced))) => state.finalized(
            region,
            start.snapshot(),
            forced,
        ),
        (state, Err(stop)) => (state.composer, Err(stop)),
    }
}

/// Distributes as many children as fit from the composer's work into the first region and returns
/// the resulting frame, together with the composer and the work that is left.
pub fn distribute<'b>(composer: Composer<'b>, regions: &Regions) -> (result: (
    Composer<'b>,
    Result<RegionFrame, Stop>,
))
    requires
        composer@.work.head <= composer@.work.children.len(),
    ensures
        (result.0@, viewed(result.1)) == distributed(composer@, regions@),
{
    let mut distributor = Distributor {
        composer,
        regions: regions.duplicate(),
        items: Vec::new(),
        sticky: None,
        stickable: None,
        pending_wrap_float: None,
        active_band: None,
    };
    assert(distributor@ =~= distribution(composer@, regions@));
    let init = distributor.snapshot();
    let forced = match distributor.run() {
        Ok(()) => distributor.composer.work.done(),
        Err(Stop::Finish(forced)) => forced,
        Err(stop) => return (distributor.composer, Err(stop)),
    };
    let region = Region { size: regions.size, expand: regions.expand };
    distributor.finalize(region, init, forced)
}

impl<'b> Distributor<'b> {
    /// Processes a tag.
    pub fn tag(&mut self, tag: Tag)
        ensures
            final(self)@ == old(self)@.with_tag(tag),
    {
        self.composer.work.tags.push(tag);
    }

    /// Generate items for pending tags.
    pub fn flush_tags(&mut self)
        ensures
            final(self)@ == old(self)@.with_tags_flushed(),
    {
        let ghost items0 = self.items@;
        let ghost tags0 = self.composer.work.tags@;
        let ghost model0 = self@;
        let mut i: usize = 0;
        while i < self.composer.work.tags.len()
            invariant
                i <= tags0.len(),
                self.composer.work.tags@ == tags0,
                self@ == (DistModel {
                    items: items0 + tags0.take(i as int).map_values(|tag: Tag| Item::Tag(tag)),
                    ..model0
                }),
            decreases tags0.len() - i,
        {
            let tag = self.composer.work.tags[i];
            self.items.push(Item::Tag(tag));
            i += 1;
            assert(tags0.take(i as int) =~= tags0.take(i - 1).push(tags0[i - 1]));
            assert(tags0.take(i as int).map_values(|tag: Tag| Item::Tag(tag))
                =~= tags0.take(i - 1).map_values(|tag: Tag| Item::Tag(tag)).push(
                Item::Tag(tags0[i - 1]),
            ));
        }
        assert(tags0.take(i as int) =~= tags0);
        self.composer.work.tags = Vec::new();
    }

    /// Adds strong spacing, which takes up space.
    pub fn gap(&mut self, gap: Abs)
        ensures
            final(self)@ == old(self)@.with_gap(gap),
    {
        self.regions.size.y = self.regions.size.y - gap;
        self.items.push(Item::Abs(gap, 0));
    }

    /// Create a snapshot of the work and items.
    pub fn snapshot(&self) -> (result: DistributionSnapshot<'b>)
        ensures
            result@ == self@.snapshot(),
    {
        DistributionSnapshot { work: self.composer.work.duplicate(), items: self.items.len() }
    }

    /// Restore a snapshot of the work and items.
    pub fn restore(&mut self, snapshot: DistributionSnapshot<'b>)
        ensures
            final(self)@ == old(self)@.restored(snapshot@),
    {
        self.composer.work = snapshot.work;
        self.items.truncate(snapshot.items);
        assert(self@ =~= old(self)@.restored(snapshot@));
    }

    /// Distributes content into the region.
    pub fn run(&mut self) -> (result: Result<(), Stop>)
        requires
            old(self)@.composer.work.head <= old(self)@.composer.work.children.len(),
        ensures
            (final(self)@, erred(result)) == old(self)@.run(),
    {
        // First, handle spill of a breakable block.
        if let Some(spill) = self.composer.work.spill.take() {
            match self.multi_spill(spill) {
                Ok(()) => {},
                Err(stop) => return Err(stop),
            }
        }
        assert((self@, Ok::<(), StopModel>(())) == old(self)@.with_block_resumed());
        let ghost resumed = self@;

        // Then handle spilled continuation lines of a wrapped paragraph.
        if let Some(spill) = self.composer.work.wrap_spill.take() {
            match self.wrap_spill(spill) {
                Ok(()) => {},
                Err(stop) => return Err(stop),
            }
        }
        assert((self@, Ok::<(), StopModel>(())) == resumed.with_par_resumed());
        proof {
            law_resuming_keeps_the_rest(old(self)@);
            law_resuming_keeps_the_rest(resumed);
        }

        // If spill are taken care of, process children until no space is left or no children are
        // left.
        let ghost children = self@.composer.work.children;
        loop
            invariant
                self@.composer.work.children == children,
                self@.composer.work.head <= children.len(),
                old(self)@.run() == self@.with_children(
                    children,
                    self@.composer.work.head as int,
                ),
            decreases children.len() - self@.composer.work.head,
        {
            let child = match self.composer.work.head() {
                Some(child) => child,
                None => return Ok(()),
            };
            let ghost before = self@;
            match self.child(&child) {
                Ok(()) => {},
                Err(stop) => return Err(stop),
            }
            proof {
                law_child_keeps_the_rest(before, child);
            }
            self.composer.work.advance();
        }
    }

    /// Processes a single child.
    ///
    /// - Returns `Ok(())` if the child was successfully processed.
    /// - Returns `Err(Stop::Finish)` if a region break should be triggered.
    /// - Returns `Err(Stop::Relayout(_))` if the region needs to be relayouted due to an insertion
    ///   (float/footnote).
    /// - Returns `Err(Stop::Error(_))` if there was a fatal error.
    pub fn child(&mut self, child: &Child) -> (result: Result<(), Stop>)
        requires
            old(self)@.composer.work.head_child() is Some,
        ensures
            (final(self)@, erred(result)) == old(self)@.with_child(*child),
    {
        // A live band that is not being continued by this child must be cleared before the child
        // is laid out, reserving the leftover float height with a strong gap so the next block
        // can't overlap the float. Tags pass through untouched (they collect between paragraphs).
        let passes = match child {
            Child::Tag(_) => true,
            Child::Deferred(d) => d.continuation,
            _ => false,
        };
        if !passes {
            if let Some(band) = self.active_band {
                self.active_band = None;
                self.gap(band.remaining);
            }
        }
        match child {
            Child::Tag(tag) => {
                self.tag(*tag);
                Ok(())
            },
            Child::Rel(amount, weakness) => {
                self.rel(*amount, *weakness);
                Ok(())
            },
            Child::Fr(fr, weakness) => {
                self.fr(*fr, *weakness);
                Ok(())
            },
            Child::Line(line) => self.line(line),
            Child::Single(single) => self.single(single),
            Child::Multi(multi) => self.multi(multi),
            Child::Placed(placed) => self.placed(placed),
            // A continuation paragraph wraps beside the live band; the opener (or a continuation
            // that arrived with no band) does not.
            Child::Deferred(d) => if d.continuation && self.active_band.is_some() {
                self.continuation_par(d)
            } else {
                self.deferred_par(d)
            },
            Child::Flush => self.flush(),
            Child::Break(weak) => self.break_(*weak),
        }
    }
}

} // verus!
