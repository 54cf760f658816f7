//! The work that is left to do in a flow.
use vstd::prelude::*;

use crate::child::{
    spill_view, wrap_spill_view, Child, MultiSpill, PlacedChild, SpillModel, WrapSpill,
    WrapSpillModel,
};
use crate::engine::{
    erred, Engine, EngineModel, Insertions, Request, RequestModel, SourceError, Stop,
    StopModel,
};
use crate::frame::{Frame, Tag};
use crate::geom::Abs;
use crate::region::{Regions, RegionsModel};
use crate::util::copy_vec;

verus! {

/// Work to do, which may span several regions.
#[derive(Debug)]
pub struct Work<'b> {
    /// The children of the flow.
    pub children: &'b [Child],
    /// How many of them are done.
    pub head: usize,
    /// What is left of a breakable block.
    pub spill: Option<MultiSpill>,
    /// What is left of a wrapped paragraph.
    pub wrap_spill: Option<WrapSpill>,
    /// Tags that wait for something to be attached to.
    pub tags: Vec<Tag>,
    /// Insertions that wait for a region.
    pub insertions: Insertions,
}

/// What work there is.
#[verifier::ext_equal]
pub struct WorkModel {
    /// The children of the flow.
    pub children: Seq<Child>,
    /// How many of them are done.
    pub head: nat,
    /// What is left of a breakable block.
    pub spill: Option<SpillModel>,
    /// What is left of a wrapped paragraph.
    pub wrap_spill: Option<WrapSpillModel>,
    /// Tags that wait.
    pub tags: Seq<Tag>,
    /// Insertions that wait.
    pub insertions: Insertions,
}

impl<'b> View for Work<'b> {
    type V = WorkModel;

    open spec fn view(&self) -> WorkModel {
        WorkModel {
            children: self.children@,
            head: self.head as nat,
            spill: spill_view(self.spill),
            wrap_spill: wrap_spill_view(self.wrap_spill),
            tags: self.tags@,
            insertions: self.insertions,
        }
    }
}

impl WorkModel {
    /// The first child that is not done.
    pub open spec fn head_child(self) -> Option<Child> {
        if self.head < self.children.len() {
            Some(self.children[self.head as int])
        } else {
            None
        }
    }

    /// The child after the first one that is not done.
    pub open spec fn next_child(self) -> Option<Child> {
        if self.head + 1 < self.children.len() {
            Some(self.children[self.head as int + 1])
        } else {
            None
        }
    }

    /// With the first child that is not done taken off.
    pub open spec fn advanced(self) -> WorkModel {
        WorkModel { head: self.head + 1, ..self }
    }

    /// Whether nothing is left to do.
    pub open spec fn done(self) -> bool {
        self.head >= self.children.len() && self.spill is None && self.wrap_spill is None
            && self.insertions.floats == 0 && self.insertions.footnotes == 0
            && !self.insertions.footnote_spill
    }
}

impl<'b> Work<'b> {
    /// The work of laying out the given children.
    pub fn new(children: &'b [Child]) -> (result: Work<'b>)
        ensures
            result@ == (WorkModel {
                children: children@,
                head: 0,
                spill: None,
                wrap_spill: None,
                tags: Seq::empty(),
                insertions: Insertions {
                    floats: 0,
                    footnotes: 0,
                    footnote_spill: false,
                    record: 0,
                },
            }),
    {
        Work {
            children,
            head: 0,
            spill: None,
            wrap_spill: None,
            tags: Vec::new(),
            insertions: Insertions { floats: 0, footnotes: 0, footnote_spill: false, record: 0 },
        }
    }

    /// The first child that is not done.
    pub fn head(&self) -> (result: Option<Child>)
        ensures
            result == self@.head_child(),
    {
        if self.head < self.children.len() {
            Some(self.children[self.head])
        } else {
            None
        }
    }

    /// The child after the first one that is not done.
    pub fn peek_next(&self) -> (result: Option<Child>)
        ensures
            result == self@.next_child(),
    {
        if self.head < self.children.len() && self.children.len() - self.head > 1 {
            Some(self.children[self.head + 1])
        } else {
            None
        }
    }

    /// Takes off the first child that is not done.
    pub fn advance(&mut self)
        requires
            old(self)@.head_child() is Some,
        ensures
            final(self)@ == old(self)@.advanced(),
    {
        if self.head < self.children.len() {
            self.head += 1;
        }
    }

    /// Whether nothing is left to do.
    pub fn done(&self) -> (result: bool)
        ensures
            result == self@.done(),
    {
        self.head >= self.children.len() && self.spill.is_none() && self.wrap_spill.is_none()
            && self.insertions.floats == 0 && self.insertions.footnotes == 0
            && !self.insertions.footnote_spill
    }

    /// A copy of the work.
    pub fn duplicate(&self) -> (result: Work<'b>)
        ensures
            result@ == self@,
    {
        Work {
            children: self.children,
            head: self.head,
            spill: match &self.spill {
                Some(spill) => Some(spill.clone()),
                None => None,
            },
            wrap_spill: match &self.wrap_spill {
                Some(spill) => Some(spill.clone()),
                None => None,
            },
            tags: copy_vec(&self.tags),
            insertions: self.insertions,
        }
    }
}

/// The work together with the dialogue about it.
#[derive(Debug)]
pub struct Composer<'b> {
    /// The work to do.
    pub work: Work<'b>,
    /// The answers known so far.
    pub engine: Engine,
}

/// What a composer holds.
#[verifier::ext_equal]
pub struct ComposerModel {
    /// The work to do.
    pub work: WorkModel,
    /// The answers known so far.
    pub engine: EngineModel,
}

impl<'b> View for Composer<'b> {
    type V = ComposerModel;

    open spec fn view(&self) -> ComposerModel {
        ComposerModel { work: self.work@, engine: self.engine@ }
    }
}

impl ComposerModel {
    /// Puts a request to insert something. The answer tells what waits now and whether the flow
    /// goes on.
    pub open spec fn insert(self, request: RequestModel) -> (ComposerModel, Result<(), StopModel>) {
        match self.engine.ask_inserted(request) {
            (engine, Ok((insertions, verdict))) => (
                ComposerModel { engine, work: WorkModel { insertions, ..self.work } },
                verdict.spec_outcome(),
            ),
            (engine, Err(error)) => (
                ComposerModel { engine, ..self },
                Err(StopModel::Error(error)),
            ),
        }
    }

    /// Inserts the footnotes in a frame.
    pub open spec fn footnotes(
        self,
        regions: RegionsModel,
        frame: Frame,
        flow_need: Abs,
        breakable: bool,
    ) -> (ComposerModel, Result<(), StopModel>) {
        self.insert(
            RequestModel::Footnotes { regions, frame, flow_need, breakable, migratable: true },
        )
    }

    /// Inserts a float.
    pub open spec fn float(
        self,
        placed: PlacedChild,
        regions: RegionsModel,
        clearance: bool,
    ) -> (ComposerModel, Result<(), StopModel>) {
        self.insert(RequestModel::Float { placed, regions, clearance, migratable: true })
    }
}

impl<'b> Composer<'b> {
    /// Puts a request to insert something.
    fn insert(&mut self, request: Request) -> (result: Result<(), Stop>)
        ensures
            (final(self)@, erred(result)) == old(self)@.insert(request@),
    {
        match self.engine.ask_inserted(request) {
            Ok((insertions, verdict)) => {
                self.work.insertions = insertions;
                verdict.outcome()
            },
            Err(error) => Err(Stop::Error(error)),
        }
    }

    /// Inserts the footnotes in a frame that needs the given space in the flow.
    pub fn footnotes(
        &mut self,
        regions: &Regions,
        frame: &Frame,
        flow_need: Abs,
        breakable: bool,
    ) -> (result: Result<(), Stop>)
        ensures
            (final(self)@, erred(result)) == old(self)@.footnotes(
                regions@,
                *frame,
                flow_need,
                breakable,
            ),
    {
        self.insert(
            Request::Footnotes {
                regions: regions.duplicate(),
                frame: *frame,
                flow_need,
                breakable,
                migratable: true,
            },
        )
    }

    /// Inserts a float.
    pub fn float(&mut self, placed: &PlacedChild, regions: &Regions, clearance: bool) -> (result:
        Result<(), Stop>)
        ensures
            (final(self)@, erred(result)) == old(self)@.float(*placed, regions@, clearance),
    {
        self.insert(
            Request::Float {
                placed: *placed,
                regions: regions.duplicate(),
                clearance,
                migratable: true,
            },
        )
    }

    /// The width of the insertions so far.
    pub fn insertion_width(&mut self) -> (result: Result<Abs, SourceError>)
        ensures
            final(self)@.work == old(self)@.work,
            (final(self)@.engine, erred(result)) == old(self)@.engine.ask_width(
                RequestModel::InsertionWidth,
            ),
    {
        self.engine.ask_width(Request::InsertionWidth)
    }
}

} // verus!
