//! Lines, blocks and placed children of a region.
use vstd::prelude::*;

use super::{DistModel, Distributor};
use crate::child::{LineChild, MultiChild, MultiSpill, PlacedChild, SingleChild, SpillModel};
use crate::engine::{erred, EngineModel, RequestModel, Stop, StopModel};
use crate::frame::Frame;
use crate::geom::{Abs, Axes, FixedAlignment};
use crate::item::{any_frame, has_frame, Item};
use crate::region::Region;
use crate::work::{ComposerModel, WorkModel};

verus! {

impl DistModel {
    /// With the dialogue at another point.
    pub open spec fn with_engine(self, engine: EngineModel) -> DistModel {
        DistModel { composer: ComposerModel { engine, ..self.composer }, ..self }
    }

    /// With the footnotes in a frame inserted.
    pub open spec fn with_footnotes(self, frame: Frame, flow_need: Abs, breakable: bool) -> (
        DistModel,
        Result<(), StopModel>,
    ) {
        let (composer, result) = self.composer.footnotes(
            self.regions,
            frame,
            flow_need,
            breakable,
        );
        (DistModel { composer, ..self }, result)
    }

    /// With the consequences of a frame for sticky blocks.
    ///
    /// The first sticky block of a group marks where the group starts, unless moving on to the
    /// next region cannot help, in which case the group does not stick. A frame that is not sticky
    /// and draws something ends the group.
    pub open spec fn with_stickiness(self, frame: Frame, sticky: bool) -> DistModel {
        if sticky {
            if self.sticky is None {
                let stickable = match self.stickable {
                    Some(stickable) => stickable,
                    None => self.regions.may_progress(),
                };
                DistModel {
                    stickable: Some(stickable),
                    sticky: if stickable {
                        Some(self.snapshot())
                    } else {
                        None
                    },
                    ..self
                }
            } else {
                self
            }
        } else {
            self.without_stickiness(frame)
        }
    }

    /// With the group of sticky blocks ended by a frame that draws something.
    pub open spec fn without_stickiness(self, frame: Frame) -> DistModel {
        if frame.is_empty() {
            self
        } else {
            DistModel { sticky: None, stickable: None, ..self }
        }
    }

    /// With an item for a frame that takes up its height, after the tags that wait.
    pub open spec fn with_frame_item(self, frame: Frame, align: Axes<FixedAlignment>) -> DistModel {
        self.with_y(self.y().minus(frame.height())).with_tags_flushed().pushed(
            Item::Frame(frame, align),
        )
    }

    /// With an in-flow frame.
    pub open spec fn with_frame(
        self,
        frame: Frame,
        align: Axes<FixedAlignment>,
        sticky: bool,
        breakable: bool,
    ) -> (DistModel, Result<(), StopModel>) {
        match self.with_stickiness(frame, sticky).with_footnotes(
            frame,
            frame.height(),
            breakable,
        ) {
            (state, Ok(())) => (state.with_frame_item(frame, align), Ok(())),
            (state, Err(stop)) => (state, Err(stop)),
        }
    }

    /// Whether a line has to go to the next region.
    pub open spec fn line_must_move(self, line: LineChild) -> bool {
        self.regions.must_move_on(line.frame.height(), line.need)
    }

    /// With a line.
    pub open spec fn with_line(self, line: LineChild) -> (DistModel, Result<(), StopModel>) {
        if self.line_must_move(line) {
            (self, Err(StopModel::Finish(false)))
        } else {
            self.with_frame(line.frame, line.align, false, false)
        }
    }

    /// With an unbreakable block.
    pub open spec fn with_single(self, single: SingleChild) -> (DistModel, Result<(), StopModel>) {
        let region = Region { size: self.regions.base(), expand: self.regions.expand };
        match self.composer.engine.ask_frame(
            RequestModel::Single { single, region: single.pod(region) },
        ) {
            (engine, Err(error)) => (self.with_engine(engine), Err(StopModel::Error(error))),
            (engine, Ok(frame)) => {
                let state = self.with_engine(engine);
                match single.fr {
                    // A fractionally sized block takes up no space yet.
                    Some(fr) => match state.with_footnotes(frame, Abs(0), false) {
                        (state, Ok(())) => (
                            state.with_tags_flushed().pushed(Item::Fr(fr, 0, Some(single))),
                            Ok(()),
                        ),
                        (state, Err(stop)) => (state, Err(stop)),
                    },
                    None => if !state.y().fits(frame.height()) && state.regions.may_progress() {
                        (state, Err(StopModel::Finish(false)))
                    } else {
                        state.with_frame(frame, single.align, single.sticky, false)
                    },
                }
            },
        }
    }

    /// With what is left of a breakable block kept for later.
    pub open spec fn with_spill(self, spill: Option<SpillModel>) -> DistModel {
        self.with_work(WorkModel { spill, ..self.composer.work })
    }

    /// With a breakable block.
    pub open spec fn with_multi(self, multi: MultiChild) -> (DistModel, Result<(), StopModel>) {
        if self.regions.is_full() {
            (self, Err(StopModel::Finish(false)))
        } else {
            match multi.laid_out(self.composer.engine, self.regions) {
                (engine, Err(error)) => (self.with_engine(engine), Err(StopModel::Error(error))),
                (engine, Ok((frame, spill))) => {
                    let state = self.with_engine(engine);
                    // If the first frame is empty, but there are non-empty frames in the spill,
                    // the whole child is put in the next region.
                    if frame.is_empty() && (spill matches Some(spill)
                        && spill.exist_non_empty_frame) && state.regions.may_progress() {
                        (state, Err(StopModel::Finish(false)))
                    } else {
                        match (state.with_frame(frame, multi.align, multi.sticky, true), spill) {
                            ((state, Err(stop)), _) => (state, Err(stop)),
                            ((state, Ok(())), None) => (state, Ok(())),
                            ((state, Ok(())), Some(_)) => {
                                let state = state.with_spill(spill);
                                (
                                    state.with_work(state.composer.work.advanced()),
                                    Err(StopModel::Finish(false)),
                                )
                            },
                        }
                    }
                },
            }
        }
    }

    /// With what spilled over from a breakable block.
    pub open spec fn with_multi_spill(self, spill: SpillModel) -> (
        DistModel,
        Result<(), StopModel>,
    ) {
        if self.regions.is_full() {
            (self.with_spill(Some(spill)), Err(StopModel::Finish(false)))
        } else {
            match spill.laid_out(self.composer.engine, self.regions) {
                (engine, Err(error)) => (self.with_engine(engine), Err(StopModel::Error(error))),
                (engine, Ok((frame, rest))) => {
                    match (
                        self.with_engine(engine).with_frame(frame, spill.multi.align, false, true),
                        rest,
                    ) {
                        ((state, Err(stop)), _) => (state, Err(stop)),
                        ((state, Ok(())), None) => (state, Ok(())),
                        ((state, Ok(())), Some(_)) => (
                            state.with_spill(rest),
                            Err(StopModel::Finish(false)),
                        ),
                    }
                },
            }
        }
    }

    /// With a side-wrap float that a paragraph wraps around: drawn flush to its side without
    /// reserving its height.
    pub open spec fn with_wrap_float(self, placed: PlacedChild, frame: Frame) -> (
        DistModel,
        Result<(), StopModel>,
    ) {
        match self.without_stickiness(frame).with_footnotes(frame, frame.height(), true) {
            (state, Ok(())) => (
                DistModel {
                    pending: Some((frame, placed.align_x)),
                    ..state.with_tags_flushed().pushed(
                        Item::WrapFloat(frame, placed.align_x, Abs(0)),
                    )
                },
                Ok(()),
            ),
            (state, Err(stop)) => (state, Err(stop)),
        }
    }

    /// With a side-wrap float that no paragraph wraps around: anchored in place with its height
    /// reserved.
    pub open spec fn with_anchored_float(self, placed: PlacedChild, frame: Frame) -> (
        DistModel,
        Result<(), StopModel>,
    ) {
        match self.without_stickiness(frame).with_footnotes(frame, frame.height(), true) {
            (state, Ok(())) => (
                state.with_frame_item(
                    frame,
                    Axes { x: placed.align_x, y: FixedAlignment::Start },
                ),
                Ok(()),
            ),
            (state, Err(stop)) => (state, Err(stop)),
        }
    }

    /// With a float handed on. The space of weak spacing at the end is available to it, as that
    /// spacing can collapse.
    pub open spec fn with_float(self, placed: PlacedChild) -> (DistModel, Result<(), StopModel>) {
        let weak = self.trailing();
        let state = self.with_y(self.y().plus(weak));
        let (composer, result) = state.composer.float(
            placed,
            state.regions,
            has_frame(state.items),
        );
        let state = DistModel { composer, ..state };
        match result {
            Ok(()) => (state.with_y(state.y().minus(weak)), Ok(())),
            Err(stop) => (state, Err(stop)),
        }
    }

    /// With a placed child.
    pub open spec fn with_placed(self, placed: PlacedChild) -> (DistModel, Result<(), StopModel>) {
        if placed.float && !placed.wrap {
            self.with_float(placed)
        } else {
            match placed.laid_out(self.composer.engine, self.regions.base()) {
                (engine, Err(error)) => (self.with_engine(engine), Err(StopModel::Error(error))),
                (engine, Ok(frame)) => {
                    let state = self.with_engine(engine);
                    if placed.float && placed.wrap_active {
                        state.with_wrap_float(placed, frame)
                    } else if placed.float {
                        state.with_anchored_float(placed, frame)
                    } else {
                        match state.with_footnotes(frame, Abs(0), true) {
                            (state, Ok(())) => (
                                state.with_tags_flushed().pushed(Item::Placed(frame, placed)),
                                Ok(()),
                            ),
                            (state, Err(stop)) => (state, Err(stop)),
                        }
                    }
                },
            }
        }
    }

    /// With a float flush: the region is finished if floats still wait.
    pub open spec fn with_flush(self) -> (DistModel, Result<(), StopModel>) {
        if self.composer.work.insertions.floats > 0 {
            (self, Err(StopModel::Finish(false)))
        } else {
            (self, Ok(()))
        }
    }

    /// With a column break: the region is finished if there is one to break into and the break
    /// is not weak at the top of a region.
    pub open spec fn with_break(self, weak: bool) -> (DistModel, Result<(), StopModel>) {
        if (!weak || self.items.len() > 0) && self.regions.may_break() {
            (
                self.with_work(self.composer.work.advanced()),
                Err(StopModel::Finish(true)),
            )
        } else {
            (self, Ok(()))
        }
    }
}

impl<'b> Distributor<'b> {
    /// Handles the footnotes in a frame.
    fn footnotes(&mut self, frame: &Frame, flow_need: Abs, breakable: bool) -> (result: Result<
        (),
        Stop,
    >)
        ensures
            (final(self)@, erred(result)) == old(self)@.with_footnotes(
                *frame,
                flow_need,
                breakable,
            ),
    {
        self.composer.footnotes(&self.regions, frame, flow_need, breakable)
    }

    /// Processes a line of a paragraph.
    pub fn line(&mut self, line: &LineChild) -> (result: Result<(), Stop>)
        ensures
            (final(self)@, erred(result)) == old(self)@.with_line(*line),
    {
        if self.must_move(line) {
            return Err(Stop::Finish(false));
        }
        self.frame(line.frame, line.align, false, false)
    }

    /// Whether a line has to go to the next region.
    pub fn must_move(&self, line: &LineChild) -> (result: bool)
        ensures
            result == self@.line_must_move(*line),
    {
        // The line's need includes its own height and that of following lines grouped by
        // widow/orphan prevention.
        self.regions.must_move_on(line.frame.height(), line.need)
    }

    /// Processes an unbreakable block.
    pub fn single(&mut self, single: &SingleChild) -> (result: Result<(), Stop>)
        ensures
            (final(self)@, erred(result)) == old(self)@.with_single(*single),
    {
        // Lay out the block.
        let region = Region { size: self.regions.base(), expand: self.regions.expand };
        let frame = match single.layout(&mut self.composer.engine, region) {
            Ok(frame) => frame,
            Err(error) => return Err(Stop::Error(error)),
        };

        // Handle fractionally sized blocks.
        if let Some(fr) = single.fr {
            match self.footnotes(&frame, Abs::zero(), false) {
                Ok(()) => {},
                Err(stop) => return Err(stop),
            }
            self.flush_tags();
            self.items.push(Item::Fr(fr, 0, Some(*single)));
            return Ok(());
        }
        // If the block doesn't fit and a followup region may improve things, finish the region.
        if !self.regions.size.y.fits(frame.height()) && self.regions.may_progress() {
            return Err(Stop::Finish(false));
        }
        self.frame(frame, single.align, single.sticky, false)
    }

    /// Processes a breakable block.
    pub fn multi(&mut self, multi: &MultiChild) -> (result: Result<(), Stop>)
        requires
            old(self)@.composer.work.head_child() is Some,
        ensures
            (final(self)@, erred(result)) == old(self)@.with_multi(*multi),
    {
        // Skip directly if the region is already (over)full. `line` and `single` implicitly do
        // this through their fit checks.
        if self.regions.is_full() {
            return Err(Stop::Finish(false));
        }
        // Lay out the block.
        let (frame, spill) = match multi.layout(&mut self.composer.engine, &self.regions) {
            Ok(laid_out) => laid_out,
            Err(error) => return Err(Stop::Error(error)),
        };
        if frame.is_empty() && self.regions.may_progress() {
            if let Some(spill) = &spill {
                if spill.exist_non_empty_frame {
                    // If the first frame is empty, but there are non-empty frames in the spill,
                    // the whole child should be put in the next region to avoid any invisible
                    // orphans at the end of this region.
                    return Err(Stop::Finish(false));
                }
            }
        }
        match self.frame(frame, multi.align, multi.sticky, true) {
            Ok(()) => {},
            Err(stop) => return Err(stop),
        }

        // If the block didn't fully fit into the current region, save it into the `spill` and
        // finish the region.
        if spill.is_some() {
            self.composer.work.spill = spill;
            self.composer.work.advance();
            return Err(Stop::Finish(false));
        }
        Ok(())
    }

    /// Processes spillover from a breakable block.
    pub fn multi_spill(&mut self, spill: MultiSpill) -> (result: Result<(), Stop>)
        ensures
            (final(self)@, erred(result)) == old(self)@.with_multi_spill(spill@),
    {
        // Skip directly if the region is already (over)full.
        if self.regions.is_full() {
            self.composer.work.spill = Some(spill);
            return Err(Stop::Finish(false));
        }
        // Lay out the spilled remains.
        let align = spill.align();
        let (frame, rest) = match spill.layout(&mut self.composer.engine, &self.regions) {
            Ok(laid_out) => laid_out,
            Err(error) => return Err(Stop::Error(error)),
        };
        match self.frame(frame, align, false, true) {
            Ok(()) => {},
            Err(stop) => return Err(stop),
        }

        // If there's still more, save it into the `spill` and finish the region.
        if rest.is_some() {
            self.composer.work.spill = rest;
            return Err(Stop::Finish(false));
        }
        Ok(())
    }

    /// Processes an in-flow frame, generated from a line or block.
    pub fn frame(
        &mut self,
        frame: Frame,
        align: Axes<FixedAlignment>,
        sticky: bool,
        breakable: bool,
    ) -> (result: Result<(), Stop>)
        ensures
            (final(self)@, erred(result)) == old(self)@.with_frame(frame, align, sticky, breakable),
    {
        if sticky {
            // If the frame is sticky and we haven't remembered a preceding sticky element, make a
            // checkpoint which we can restore should we end on this sticky element.
            //
            // The first sticky block within consecutive sticky blocks determines whether this
            // group of sticky blocks has stickiness disabled or not: if migrating this group
            // together with the "attached" block can't improve the lack of space, since we're at
            // the start of the region, then we don't do so.
            if self.sticky.is_none() {
                let stickable = match self.stickable {
                    Some(stickable) => stickable,
                    None => self.regions.may_progress(),
                };
                self.stickable = Some(stickable);
                if stickable {
                    self.sticky = Some(self.snapshot());
                }
            }
        } else {
            self.end_stickiness(&frame);
        }

        // Handle footnotes.
        match self.footnotes(&frame, frame.height(), breakable) {
            Ok(()) => {},
            Err(stop) => return Err(stop),
        }

        // Push an item for the frame.
        self.frame_item(frame, align);
        Ok(())
    }

    /// Forgets a previous snapshot if the frame draws something. It interrupts a group of sticky
    /// blocks, if there was one, so the saved stickable check is reset for the next group.
    fn end_stickiness(&mut self, frame: &Frame)
        ensures
            final(self)@ == old(self)@.without_stickiness(*frame),
    {
        if !frame.is_empty() {
            self.sticky = None;
            self.stickable = None;
        }
    }

    /// Pushes an item for a frame that takes up its height.
    pub fn frame_item(&mut self, frame: Frame, align: Axes<FixedAlignment>)
        ensures
            final(self)@ == old(self)@.with_frame_item(frame, align),
    {
        self.regions.size.y = self.regions.size.y - frame.height();
        self.flush_tags();
        self.items.push(Item::Frame(frame, align));
    }

    /// Processes an absolutely or floatingly placed child.
    pub fn placed(&mut self, placed: &PlacedChild) -> (result: Result<(), Stop>)
        ensures
            (final(self)@, erred(result)) == old(self)@.with_placed(*placed),
    {
        if placed.float && !placed.wrap {
            // If the element is floatingly placed, let the composer handle it. It might require
            // relayout because the area available for distribution shrinks. We make the spacing
            // occupied by weak spacing temporarily available again because it can collapse if it
            // ends up at a break due to the float.
            let weak_spacing = self.weak_spacing();
            self.regions.size.y = self.regions.size.y + weak_spacing;
            let clearance = any_frame(&self.items);
            match self.composer.float(placed, &self.regions, clearance) {
                Ok(()) => {},
                Err(stop) => return Err(stop),
            }
            self.regions.size.y = self.regions.size.y - weak_spacing;
            return Ok(());
        }
        let base = self.regions.base();
        let frame = match placed.layout(&mut self.composer.engine, base) {
            Ok(frame) => frame,
            Err(error) => return Err(Stop::Error(error)),
        };
        if placed.float && placed.wrap_active {
            // A side-wrapping float that is immediately followed by a wrapping paragraph: draw it
            // flush to its side without reserving its height, so the following deferred paragraph
            // flows beside it, not under. Like any non-sticky in-flow frame, it interrupts a run
            // of sticky blocks.
            self.end_stickiness(&frame);
            // Footnotes still reserve against the float's real height.
            match self.footnotes(&frame, frame.height(), true) {
                Ok(()) => {},
                Err(stop) => return Err(stop),
            }
            self.flush_tags();
            // Stash the frame so the next deferred paragraph can build its exclusion band.
            self.pending_wrap_float = Some((frame, placed.align_x));
            self.items.push(Item::WrapFloat(frame, placed.align_x, Abs::zero()));
            return Ok(());
        }
        if placed.float {
            // A side-wrap float with no immediately-following wrapping paragraph: anchor in place
            // and reserve its height so the following content flows cleanly below it.
            self.end_stickiness(&frame);
            match self.footnotes(&frame, frame.height(), true) {
                Ok(()) => {},
                Err(stop) => return Err(stop),
            }
            self.frame_item(frame, Axes { x: placed.align_x, y: FixedAlignment::Start });
            return Ok(());
        }
        match self.footnotes(&frame, Abs::zero(), true) {
            Ok(()) => {},
            Err(stop) => return Err(stop),
        }
        self.flush_tags();
        self.items.push(Item::Placed(frame, *placed));
        Ok(())
    }

    /// Processes a float flush.
    pub fn flush(&mut self) -> (result: Result<(), Stop>)
        ensures
            (final(self)@, erred(result)) == old(self)@.with_flush(),
    {
        // If there are still pending floats, finish the region instead of adding more content to
        // it.
        if self.composer.work.insertions.floats > 0 {
            return Err(Stop::Finish(false));
        }
        Ok(())
    }

    /// Processes a column break.
    pub fn break_(&mut self, weak: bool) -> (result: Result<(), Stop>)
        requires
            old(self)@.composer.work.head_child() is Some,
        ensures
            (final(self)@, erred(result)) == old(self)@.with_break(weak),
    {
        // If there is a region to break into, break into it.
        if (!weak || self.items.len() > 0) && self.regions.may_break() {
            self.composer.work.advance();
            return Err(Stop::Finish(true));
        }
        Ok(())
    }
}

} // verus!
