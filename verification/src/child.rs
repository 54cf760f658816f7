//! The prepared children of a flow.
use vstd::prelude::*;

use crate::element::{
    Alignment, HAlignment, Location, Locator, ParElem, ParSituation, PlacementScope,
};
use crate::engine::{
    erred, viewed, Engine, EngineModel, ErrorModel, Request, RequestModel, SourceError,
};
use crate::frame::{Frame, Tag};
use crate::geom::{Abs, Axes, FixedAlignment, Fr, Rel, Size, Smart};
use crate::region::{Region, Regions, RegionsModel};
use crate::util::{append_copy, copy_vec};
use crate::wrap::ProfileModel;

verus! {

/// A prepared child in flow layout.
#[derive(Clone, Copy, Debug, PartialEq, Eq, Hash)]
pub enum Child {
    /// An introspection tag.
    Tag(Tag),
    /// Relative spacing with a specific weakness level.
    Rel(Rel, u8),
    /// Fractional spacing with a specific weakness level.
    Fr(Fr, u8),
    /// An already layouted line of a paragraph.
    Line(LineChild),
    /// An unbreakable block.
    Single(SingleChild),
    /// A breakable block.
    Multi(MultiChild),
    /// An absolutely or floatingly placed element.
    Placed(PlacedChild),
    /// A paragraph deferred for break-beside-float in the distributor.
    Deferred(DeferredParChild),
    /// A place flush.
    Flush,
    /// An explicit column break.
    Break(bool),
}

/// A child that encapsulates a layouted line of a paragraph.
#[derive(Clone, Copy, Debug, PartialEq, Eq, Hash)]
pub struct LineChild {
    /// The line.
    pub frame: Frame,
    /// How the line is aligned.
    pub align: Axes<FixedAlignment>,
    /// The height that must be available for the line to be placed, which includes that of
    /// following lines that it must not be separated from.
    pub need: Abs,
}

/// A paragraph deferred because it immediately follows a side-wrap float. Broken in the
/// distributor once the float's height is known.
#[derive(Clone, Copy, Debug, PartialEq, Eq, Hash)]
pub struct DeferredParChild {
    /// The paragraph.
    pub elem: ParElem,
    /// Its place in the introspection order.
    pub locator: Locator,
    /// The size that the flow is laid out into.
    pub base: Size,
    /// Whether the lines expand horizontally.
    pub expand: bool,
    /// Where the paragraph stands.
    pub par_situation: ParSituation,
    /// Clearance copied from the preceding float.
    pub clearance: Abs,
    /// Drop-cap span (number of lines) copied from the preceding wrap float, if it was a drop
    /// cap. `None` for ordinary side-wrap floats.
    pub dropcap: Option<usize>,
    /// `false` for the opener paragraph (immediately after the float, sets the band); `true` for
    /// a chained continuation paragraph that wraps beside the lower part of the same float.
    pub continuation: bool,
}

impl DeferredParChild {
    /// The request that breaks the paragraph into lines of the given widths.
    pub open spec fn request(self, base: Size, profile: Option<ProfileModel>) -> RequestModel {
        RequestModel::Par {
            elem: self.elem,
            locator: self.locator,
            base,
            expand: self.expand,
            situation: self.par_situation,
            profile,
        }
    }
}

/// A child that encapsulates a prepared unbreakable block.
#[derive(Clone, Copy, Debug, PartialEq, Eq, Hash)]
pub struct SingleChild {
    /// How the block is aligned.
    pub align: Axes<FixedAlignment>,
    /// Whether the block sticks to what follows it.
    pub sticky: bool,
    /// Whether the block is the only child.
    pub alone: bool,
    /// The block's share of the remaining space, if it is sized that way.
    pub fr: Option<Fr>,
    /// The handle of the block.
    pub elem: u64,
    /// Its place in the introspection order.
    pub locator: Locator,
}

impl SingleChild {
    /// The region that the block is laid out into. Vertical expansion is only kept if the block
    /// is the only child.
    pub open spec fn pod(self, region: Region) -> Region {
        Region {
            expand: Axes { x: region.expand.x, y: region.expand.y && self.alone },
            ..region
        }
    }

    /// Build the child's frame given the region's base size.
    pub fn layout(&self, engine: &mut Engine, region: Region) -> (result: Result<
        Frame,
        SourceError,
    >)
        ensures
            (final(engine)@, erred(result)) == old(engine)@.ask_frame(
                RequestModel::Single { single: *self, region: self.pod(region) },
            ),
    {
        let mut region = region;
        region.expand.y = region.expand.y && self.alone;
        engine.ask_frame(Request::Single { single: *self, region })
    }
}

/// A child that encapsulates a prepared breakable block.
#[derive(Clone, Copy, Debug, PartialEq, Eq, Hash)]
pub struct MultiChild {
    /// How the block is aligned.
    pub align: Axes<FixedAlignment>,
    /// Whether the block sticks to what follows it.
    pub sticky: bool,
    /// Whether the block is the only child.
    pub alone: bool,
    /// The handle of the block.
    pub elem: u64,
    /// Its place in the introspection order.
    pub locator: Locator,
}

/// Whether any of the frames draws something.
pub open spec fn some_drawn(frames: Seq<Frame>) -> bool {
    exists|i: int| 0 <= i < frames.len() && !(#[trigger] frames[i]).is_empty()
}

impl MultiChild {
    /// The request that lays out the block. Vertical expansion is only kept if the block is the
    /// only child.
    pub open spec fn request(self, regions: RegionsModel) -> RequestModel {
        RequestModel::Multi {
            multi: self,
            regions: RegionsModel {
                expand: Axes { x: regions.expand.x, y: regions.expand.y && self.alone },
                ..regions
            },
        }
    }

    /// The block's first frame, and what spills over if there are more.
    pub open spec fn first_frame(self, regions: RegionsModel, frames: Seq<Frame>) -> Result<
        (Frame, Option<SpillModel>),
        ErrorModel,
    > {
        if frames.len() == 0 {
            Err(ErrorModel::Mismatch)
        } else if frames.len() == 1 {
            Ok((frames[0], None))
        } else {
            Ok(
                (
                    frames[0],
                    Some(
                        SpillModel {
                            exist_non_empty_frame: some_drawn(frames),
                            multi: self,
                            first: regions.size.y,
                            full: regions.full,
                            backlog: Seq::empty(),
                            min_backlog_len: regions.backlog.len(),
                        },
                    ),
                ),
            )
        }
    }

    /// The outcome of laying out the block into fresh regions.
    pub open spec fn laid_out(self, engine: EngineModel, regions: RegionsModel) -> (
        EngineModel,
        Result<(Frame, Option<SpillModel>), ErrorModel>,
    ) {
        match engine.ask_frames(self.request(regions)) {
            (engine, Ok(frames)) => (engine, self.first_frame(regions, frames)),
            (engine, Err(error)) => (engine, Err(error)),
        }
    }

    /// Build the child's frames given regions: the first frame, and a spill if there are more.
    pub fn layout(&self, engine: &mut Engine, regions: &Regions) -> (result: Result<
        (Frame, Option<MultiSpill>),
        SourceError,
    >)
        ensures
            (final(engine)@, spilled(result)) == self.laid_out(old(engine)@, regions@),
    {
        let frames = match self.layout_full(engine, regions.duplicate()) {
            Ok(frames) => frames,
            Err(error) => return Err(error),
        };
        let exist_non_empty_frame = any_drawn(&frames);
        if frames.len() == 0 {
            return Err(SourceError::Mismatch);
        }
        let frame = frames[0];
        let mut spill = None;
        if frames.len() > 1 {
            let backlog = Vec::new();
            assert(backlog@ =~= Seq::<Abs>::empty());
            spill = Some(
                MultiSpill {
                    exist_non_empty_frame,
                    multi: *self,
                    first: regions.size.y,
                    full: regions.full,
                    backlog,
                    min_backlog_len: regions.backlog.len(),
                },
            );
        }
        Ok((frame, spill))
    }

    /// Lays out the block into all regions.
    fn layout_full(&self, engine: &mut Engine, regions: Regions) -> (result: Result<
        Vec<Frame>,
        SourceError,
    >)
        ensures
            (final(engine)@, viewed(result)) == old(engine)@.ask_frames(
                self.request(regions@),
            ),
    {
        let mut regions = regions;
        regions.expand.y = regions.expand.y && self.alone;
        engine.ask_frames(Request::Multi { multi: *self, regions })
    }
}

/// Whether any of the frames draws something.
fn any_drawn(frames: &Vec<Frame>) -> (result: bool)
    ensures
        result == some_drawn(frames@),
{
    let mut i: usize = 0;
    while i < frames.len()
        invariant
            i <= frames@.len(),
            forall|j: int| 0 <= j < i ==> (#[trigger] frames@[j]).is_empty(),
        decreases frames@.len() - i,
    {
        if !frames[i].is_empty() {
            return true;
        }
        i += 1;
    }
    false
}

/// The spilled remains of a `MultiChild` that broke across two regions.
#[derive(Debug, PartialEq, Eq)]
pub struct MultiSpill {
    /// Whether any frame of the block draws something.
    pub exist_non_empty_frame: bool,
    /// The block.
    pub multi: MultiChild,
    /// The remaining height of the region that the block started in.
    pub first: Abs,
    /// The full height of the region that the block started in.
    pub full: Abs,
    /// The heights of the regions that the block went on in.
    pub backlog: Vec<Abs>,
    /// The least number of regions to pass on after the first.
    pub min_backlog_len: usize,
}

/// What a spill holds.
#[verifier::ext_equal]
pub struct SpillModel {
    pub exist_non_empty_frame: bool,
    pub multi: MultiChild,
    pub first: Abs,
    pub full: Abs,
    pub backlog: Seq<Abs>,
    pub min_backlog_len: nat,
}

impl View for MultiSpill {
    type V = SpillModel;

    open spec fn view(&self) -> SpillModel {
        SpillModel {
            exist_non_empty_frame: self.exist_non_empty_frame,
            multi: self.multi,
            first: self.first,
            full: self.full,
            backlog: self.backlog@,
            min_backlog_len: self.min_backlog_len as nat,
        }
    }
}

/// An optional spill by what it holds.
pub open spec fn spill_view(spill: Option<MultiSpill>) -> Option<SpillModel> {
    match spill {
        Some(spill) => Some(spill@),
        None => None,
    }
}

/// The result of laying out a breakable block by what it holds.
pub open spec fn spilled(result: Result<(Frame, Option<MultiSpill>), SourceError>) -> Result<
    (Frame, Option<SpillModel>),
    ErrorModel,
> {
    match result {
        Ok((frame, spill)) => Ok((frame, spill_view(spill))),
        Err(error) => Err(error@),
    }
}

/// The heights without those at the end that only repeat `last`, but at least `min_len` of them.
pub open spec fn without_repeats(heights: Seq<Abs>, min_len: nat, last: Option<Abs>) -> Seq<Abs>
    decreases heights.len(),
{
    if heights.len() > min_len && Some(heights.last()) == last {
        without_repeats(heights.drop_last(), min_len, last)
    } else {
        heights
    }
}

impl SpillModel {
    /// The heights of the regions that the block went on in, with the current one.
    pub open spec fn committed(self, regions: RegionsModel) -> Seq<Abs> {
        self.backlog.push(regions.size.y)
    }

    /// The heights of the regions after the first that are passed on.
    pub open spec fn pod_backlog(self, regions: RegionsModel) -> Seq<Abs> {
        without_repeats(
            self.committed(regions) + regions.backlog,
            self.min_backlog_len,
            regions.last,
        )
    }

    /// The regions that the block is laid out into anew: those that it went through, then those
    /// that may follow.
    pub open spec fn pod(self, regions: RegionsModel) -> RegionsModel {
        RegionsModel {
            size: Axes { x: regions.size.x, y: self.first },
            expand: regions.expand,
            full: self.full,
            backlog: self.pod_backlog(regions),
            last: regions.last,
        }
    }

    /// The frame for the current region, and what spills over if there are more.
    pub open spec fn next_frame(self, regions: RegionsModel, frames: Seq<Frame>) -> Result<
        (Frame, Option<SpillModel>),
        ErrorModel,
    > {
        let done = self.committed(regions).len();
        let min = self.min_backlog_len;
        let len = self.pod_backlog(regions).len();
        if frames.len() <= done {
            Err(ErrorModel::Mismatch)
        } else if frames.len() == done + 1 {
            Ok((frames[done as int], None))
        } else {
            Ok(
                (
                    frames[done as int],
                    Some(
                        SpillModel {
                            backlog: self.committed(regions),
                            min_backlog_len: if min >= len {
                                min
                            } else {
                                len
                            },
                            ..self
                        },
                    ),
                ),
            )
        }
    }

    /// The outcome of laying out the spill into the regions at hand.
    pub open spec fn laid_out(self, engine: EngineModel, regions: RegionsModel) -> (
        EngineModel,
        Result<(Frame, Option<SpillModel>), ErrorModel>,
    ) {
        match engine.ask_frames(self.multi.request(self.pod(regions))) {
            (engine, Ok(frames)) => (engine, self.next_frame(regions, frames)),
            (engine, Err(error)) => (engine, Err(error)),
        }
    }
}

impl MultiSpill {
    /// Build the spill's frames given regions.
    ///
    /// The block is laid out again into all regions that it went through so far, followed by the
    /// regions at hand, and the frame for the current region is picked out.
    pub fn layout(self, engine: &mut Engine, regions: &Regions) -> (result: Result<
        (Frame, Option<MultiSpill>),
        SourceError,
    >)
        ensures
            (final(engine)@, spilled(result)) == self@.laid_out(old(engine)@, regions@),
    {
        let ghost spill0 = self@;
        let mut spill = self;

        // The first region becomes unchangeable and committed to our backlog.
        spill.backlog.push(regions.size.y);

        // The remaining regions are ephemeral and may be replaced.
        let mut backlog = copy_vec(&spill.backlog);
        append_copy(&mut backlog, &regions.backlog);

        // Remove unnecessary backlog items to prevent it from growing unnecessarily.
        loop
            invariant
                without_repeats(backlog@, spill.min_backlog_len as nat, regions.last)
                    == spill0.pod_backlog(regions@),
            ensures
                backlog@ == spill0.pod_backlog(regions@),
            decreases backlog@.len(),
        {
            let len = backlog.len();
            if len <= spill.min_backlog_len {
                break;
            }
            let repeats = match regions.last {
                Some(height) => backlog[len - 1] == height,
                None => false,
            };
            if !repeats {
                break;
            }
            assert(backlog@.drop_last() =~= backlog@.take(len - 1));
            backlog.truncate(len - 1);
        }

        // Build the pod with the merged regions.
        let backlog_len = backlog.len();
        let pod = Regions {
            size: Axes { x: regions.size.x, y: spill.first },
            expand: regions.expand,
            full: spill.full,
            backlog,
            last: regions.last,
        };

        // Extract the not-yet-processed frames.
        let frames = match spill.multi.layout_full(engine, pod) {
            Ok(frames) => frames,
            Err(error) => return Err(error),
        };
        let done = spill.backlog.len();

        // Ensure that the backlog never shrinks.
        if backlog_len > spill.min_backlog_len {
            spill.min_backlog_len = backlog_len;
        }
        if frames.len() <= done {
            return Err(SourceError::Mismatch);
        }
        let frame = frames[done];

        // If there's more, return a spill.
        if frames.len() - done > 1 {
            Ok((frame, Some(spill)))
        } else {
            Ok((frame, None))
        }
    }

    /// The alignment of the breakable block.
    pub fn align(&self) -> (result: Axes<FixedAlignment>)
        ensures
            result == self@.multi.align,
    {
        self.multi.align
    }
}

impl Clone for MultiSpill {
    fn clone(&self) -> (result: MultiSpill)
        ensures
            result@ == self@,
    {
        MultiSpill {
            exist_non_empty_frame: self.exist_non_empty_frame,
            multi: self.multi,
            first: self.first,
            full: self.full,
            backlog: copy_vec(&self.backlog),
            min_backlog_len: self.min_backlog_len,
        }
    }
}

/// Remaining full-width lines of a wrapped paragraph, carried to the next region. The lines are
/// already broken; they only need to be fitted into the new region. A paragraph of which a narrowed
/// line would be carried does not wrap in the first place.
#[derive(Debug, PartialEq, Eq)]
pub struct WrapSpill {
    /// Pre-broken, full-width continuation line frames (in order).
    pub lines: Vec<LineChild>,
    /// Leading to insert between consecutive lines (`Rel` weakness 5).
    pub leading: Abs,
    /// Trailing paragraph spacing to emit after the last line (`Rel` weakness 4).
    pub spacing: Abs,
}

/// What the carried lines are.
#[verifier::ext_equal]
pub struct WrapSpillModel {
    pub lines: Seq<LineChild>,
    pub leading: Abs,
    pub spacing: Abs,
}

impl View for WrapSpill {
    type V = WrapSpillModel;

    open spec fn view(&self) -> WrapSpillModel {
        WrapSpillModel { lines: self.lines@, leading: self.leading, spacing: self.spacing }
    }
}

/// Optional carried lines by what they are.
pub open spec fn wrap_spill_view(spill: Option<WrapSpill>) -> Option<WrapSpillModel> {
    match spill {
        Some(spill) => Some(spill@),
        None => None,
    }
}

impl Clone for WrapSpill {
    fn clone(&self) -> (result: WrapSpill)
        ensures
            result@ == self@,
    {
        WrapSpill {
            lines: copy_vec(&self.lines),
            leading: self.leading,
            spacing: self.spacing,
        }
    }
}

/// A child that encapsulates a prepared placed element.
#[derive(Clone, Copy, Debug, PartialEq, Eq, Hash)]
pub struct PlacedChild {
    /// The horizontal alignment.
    pub align_x: FixedAlignment,
    /// The vertical alignment: automatic, given, or at the current position.
    pub align_y: Smart<Option<FixedAlignment>>,
    /// Relative to what the element is placed.
    pub scope: PlacementScope,
    /// Whether the element floats.
    pub float: bool,
    /// Whether text wraps around the element.
    pub wrap: bool,
    /// Whether a wrapping paragraph immediately follows this side-wrap float.
    pub wrap_active: bool,
    /// The space to keep free around a floating element.
    pub clearance: Abs,
    /// The displacement from the position.
    pub delta: Axes<Rel>,
    /// The handle of the element.
    pub elem: u64,
    /// How many lines the element spans as a drop cap, if it is one.
    pub dropcap: Option<usize>,
    /// Its place in the introspection order.
    pub locator: Locator,
    /// The alignment as given.
    pub alignment: Smart<Alignment>,
    /// The element's location.
    pub location: Location,
}

impl PlacedChild {
    /// The request that lays out the element. Its content is centered unless aligned otherwise,
    /// and does not expand.
    pub open spec fn request(self, base: Size) -> RequestModel {
        RequestModel::Placed {
            placed: self,
            align: match self.alignment {
                Smart::Custom(align) => align,
                Smart::Auto => Alignment { x: Some(HAlignment::Center), y: None },
            },
            region: Region { size: base, expand: Axes { x: false, y: false } },
        }
    }

    /// The element's frame as part of the flow. That of a floating element belongs to the element
    /// wherever it ends up.
    pub open spec fn adopted(self, frame: Frame) -> Frame {
        if self.float {
            frame.with_parent(self.location)
        } else {
            frame
        }
    }

    /// The outcome of laying out the element.
    pub open spec fn laid_out(self, engine: EngineModel, base: Size) -> (
        EngineModel,
        Result<Frame, ErrorModel>,
    ) {
        match engine.ask_frame(self.request(base)) {
            (engine, Ok(frame)) => (engine, Ok(self.adopted(frame))),
            (engine, Err(error)) => (engine, Err(error)),
        }
    }

    /// Build the child's frame given the region's base size.
    pub fn layout(&self, engine: &mut Engine, base: Size) -> (result: Result<Frame, SourceError>)
        ensures
            (final(engine)@, erred(result)) == self.laid_out(old(engine)@, base),
    {
        let align = match self.alignment {
            Smart::Custom(align) => align,
            Smart::Auto => Alignment { x: Some(HAlignment::Center), y: None },
        };
        let mut frame = match engine.ask_frame(
            Request::Placed {
                placed: *self,
                align,
                region: Region { size: base, expand: Axes { x: false, y: false } },
            },
        ) {
            Ok(frame) => frame,
            Err(error) => return Err(error),
        };
        if self.float {
            frame.set_parent(self.location);
        }
        Ok(frame)
    }

    /// The element's location.
    pub fn location(&self) -> (result: Location)
        ensures
            result == self.location,
    {
        self.location
    }
}

} // verus!
