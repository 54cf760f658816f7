//! The dialogue between the flow and the layouters of its content.
//!
//! The flow decides where content goes. The content itself is laid out elsewhere, and so are
//! footnotes and floats inserted elsewhere. Each time the flow depends on such work it puts a
//! [`Request`] to the [`Engine`], which holds the answers that are known so far, in the order in
//! which they are asked for. When the answers are used up, the flow stops with the open request.
//! Whoever runs it then does the work, adds the answer, and runs the flow again from the start:
//! given the same answers it always takes the same course.
use vstd::prelude::*;

use crate::child::{MultiChild, PlacedChild, SingleChild};
use crate::element::{Alignment, LineStyle, Locator, ParElem, ParSituation, PlacementScope};
use crate::frame::Frame;
use crate::geom::{Abs, Ratio, Size};
use crate::region::{Region, Regions, RegionsModel};
use crate::util::copy_vec;
use crate::wrap::{ProfileModel, WrapProfile};

verus! {

/// Work that the flow depends on.
#[derive(Debug, PartialEq, Eq)]
pub enum Request {
    /// Break a paragraph into lines. Answered by [`Answer::Frames`].
    Par {
        /// The paragraph.
        elem: ParElem,
        /// Its place in the introspection order.
        locator: Locator,
        /// The size to lay out into.
        base: Size,
        /// Whether the lines expand horizontally.
        expand: bool,
        /// Where the paragraph stands.
        situation: ParSituation,
        /// The widths of the lines where they differ.
        profile: Option<WrapProfile>,
    },
    /// Break the inline children in a range into lines. Answered by [`Answer::Inline`].
    Inline {
        /// The index of the first child.
        start: usize,
        /// The index after the last child.
        end: usize,
        /// The size to lay out into.
        base: Size,
        /// Whether the lines expand horizontally.
        expand: bool,
    },
    /// Lay out an unbreakable block. Answered by [`Answer::Frame`]. The frame of the block's
    /// content is marked by [`mark_block_end`](crate::frame::mark_block_end) before it is modified
    /// further.
    Single {
        /// The block.
        single: SingleChild,
        /// The region to lay out into.
        region: Region,
    },
    /// Lay out a breakable block. Answered by [`Answer::Frames`], one for each region.
    Multi {
        /// The block.
        multi: MultiChild,
        /// The regions to lay out into.
        regions: Regions,
    },
    /// Lay out a placed element. Answered by [`Answer::Frame`].
    Placed {
        /// The element.
        placed: PlacedChild,
        /// The alignment of its content.
        align: Alignment,
        /// The region to lay out into.
        region: Region,
    },
    /// Insert the footnotes in a frame. Answered by [`Answer::Inserted`].
    Footnotes {
        /// The regions with the space that remains.
        regions: Regions,
        /// The frame.
        frame: Frame,
        /// The space that the frame needs in the flow.
        flow_need: Abs,
        /// Whether the frame belongs to something breakable.
        breakable: bool,
        /// Whether the frame may migrate to the next region.
        migratable: bool,
    },
    /// Insert a float. Answered by [`Answer::Inserted`].
    Float {
        /// The float.
        placed: PlacedChild,
        /// The regions with the space that remains.
        regions: Regions,
        /// Whether clearance is needed because there is content already.
        clearance: bool,
        /// Whether the float may migrate to the next region.
        migratable: bool,
    },
    /// Look up the cap heights of a paragraph's fonts. Answered by [`Answer::CapHeights`].
    CapHeights {
        /// The paragraph.
        elem: ParElem,
    },
    /// Determine the width of the insertions so far. Answered by [`Answer::Width`].
    InsertionWidth,
}

/// What a request asks for.
#[verifier::ext_equal]
pub enum RequestModel {
    Par {
        elem: ParElem,
        locator: Locator,
        base: Size,
        expand: bool,
        situation: ParSituation,
        profile: Option<ProfileModel>,
    },
    Inline { start: usize, end: usize, base: Size, expand: bool },
    Single { single: SingleChild, region: Region },
    Multi { multi: MultiChild, regions: RegionsModel },
    Placed { placed: PlacedChild, align: Alignment, region: Region },
    Footnotes {
        regions: RegionsModel,
        frame: Frame,
        flow_need: Abs,
        breakable: bool,
        migratable: bool,
    },
    Float { placed: PlacedChild, regions: RegionsModel, clearance: bool, migratable: bool },
    CapHeights { elem: ParElem },
    InsertionWidth,
}

impl View for Request {
    type V = RequestModel;

    open spec fn view(&self) -> RequestModel {
        match *self {
            Request::Par { elem, locator, base, expand, situation, profile } => RequestModel::Par {
                elem,
                locator,
                base,
                expand,
                situation,
                profile: match profile {
                    Some(profile) => Some(profile@),
                    None => None,
                },
            },
            Request::Inline { start, end, base, expand } => RequestModel::Inline {
                start,
                end,
                base,
                expand,
            },
            Request::Single { single, region } => RequestModel::Single { single, region },
            Request::Multi { multi, regions } => RequestModel::Multi { multi, regions: regions@ },
            Request::Placed { placed, align, region } => RequestModel::Placed {
                placed,
                align,
                region,
            },
            Request::Footnotes { regions, frame, flow_need, breakable, migratable } => {
                RequestModel::Footnotes {
                    regions: regions@,
                    frame,
                    flow_need,
                    breakable,
                    migratable,
                }
            },
            Request::Float { placed, regions, clearance, migratable } => RequestModel::Float {
                placed,
                regions: regions@,
                clearance,
                migratable,
            },
            Request::CapHeights { elem } => RequestModel::CapHeights { elem },
            Request::InsertionWidth => RequestModel::InsertionWidth,
        }
    }
}

/// Why an insertion interrupts the flow, if it does.
#[derive(Clone, Copy, Debug, PartialEq, Eq, Structural, Hash)]
pub enum Verdict {
    /// The flow may go on.
    Proceed,
    /// The region is to be finished, forced or not.
    Finish(bool),
    /// The given scope is to be laid out again.
    Relayout(PlacementScope),
    /// There was a fatal error, by its handle.
    Error(u64),
}

/// The insertions that still wait for a region.
#[derive(Clone, Copy, Debug, PartialEq, Eq, Structural, Hash)]
pub struct Insertions {
    /// How many floats are queued.
    pub floats: usize,
    /// How many footnotes are queued.
    pub footnotes: usize,
    /// Whether a footnote broke across regions.
    pub footnote_spill: bool,
    /// The handle of the record of what was inserted so far.
    pub record: u64,
}

/// The styles shared by inline children.
#[derive(Clone, Copy, Debug, PartialEq, Eq, Hash)]
pub struct InlineStyle {
    /// The spacing between lines.
    pub leading: Abs,
    /// How the lines are grouped.
    pub style: LineStyle,
}

/// The answer to a request.
#[derive(Debug, PartialEq, Eq)]
pub enum Answer {
    /// The frames of a paragraph or breakable block.
    Frames(Vec<Frame>),
    /// The lines of inline children and their shared styles.
    Inline(Vec<Frame>, InlineStyle),
    /// The frame of an unbreakable block or placed element.
    Frame(Frame),
    /// The insertions that wait now, and whether the flow goes on.
    Inserted(Insertions, Verdict),
    /// The cap height of each font family in order, as a ratio of the text size, for those that
    /// are available.
    CapHeights(Vec<Option<Ratio>>),
    /// A width.
    Width(Abs),
    /// The work failed with a fatal error, by its handle.
    Failure(u64),
}

/// What an answer holds.
#[verifier::ext_equal]
pub enum AnswerModel {
    Frames(Seq<Frame>),
    Inline(Seq<Frame>, InlineStyle),
    Frame(Frame),
    Inserted(Insertions, Verdict),
    CapHeights(Seq<Option<Ratio>>),
    Width(Abs),
    Failure(u64),
}

impl View for Answer {
    type V = AnswerModel;

    open spec fn view(&self) -> AnswerModel {
        match *self {
            Answer::Frames(frames) => AnswerModel::Frames(frames@),
            Answer::Inline(frames, style) => AnswerModel::Inline(frames@, style),
            Answer::Frame(frame) => AnswerModel::Frame(frame),
            Answer::Inserted(insertions, verdict) => AnswerModel::Inserted(insertions, verdict),
            Answer::CapHeights(ratios) => AnswerModel::CapHeights(ratios@),
            Answer::Width(width) => AnswerModel::Width(width),
            Answer::Failure(id) => AnswerModel::Failure(id),
        }
    }
}

impl Answer {
    /// A copy of the answer.
    fn duplicate(&self) -> (result: Answer)
        ensures
            result@ == self@,
    {
        match self {
            Answer::Frames(frames) => Answer::Frames(copy_vec(frames)),
            Answer::Inline(frames, style) => Answer::Inline(copy_vec(frames), *style),
            Answer::Frame(frame) => Answer::Frame(*frame),
            Answer::Inserted(insertions, verdict) => Answer::Inserted(*insertions, *verdict),
            Answer::CapHeights(ratios) => Answer::CapHeights(copy_vec(ratios)),
            Answer::Width(width) => Answer::Width(*width),
            Answer::Failure(id) => Answer::Failure(*id),
        }
    }
}

/// Why an element cannot be part of a flow.
#[derive(Clone, Copy, Debug, PartialEq, Eq, Structural, Hash)]
pub enum Bail {
    /// A page break stands inside of a container.
    NestedPagebreak,
    /// A wrapping element does not float.
    WrapWithoutFloat,
    /// A wrapping element is not on the left or right.
    WrapWithoutSide,
    /// A wrapping element is aligned vertically.
    WrapAligned,
    /// A wrapping element is placed relative to the parent.
    WrapInParent,
    /// A floating element is not at the top or bottom.
    FloatInside,
    /// An element that does not float is positioned automatically.
    AutoWithoutFloat,
    /// An element that does not float is placed relative to the parent.
    ParentWithoutFloat,
}

impl Bail {
    pub open spec fn spec_message(self) -> Seq<char> {
        match self {
            Bail::NestedPagebreak => "pagebreaks are not allowed inside of containers"@,
            Bail::WrapWithoutFloat => {
                "wrapping placement is only available for floating placement"@
            },
            Bail::WrapWithoutSide => "wrapping placement requires a `left` or `right` alignment"@,
            Bail::WrapAligned => {
                "wrapping placement anchors the float at its position in the text"@
            },
            Bail::WrapInParent => "wrapping placement is not supported for parent scope"@,
            Bail::FloatInside => "vertical floating placement must be `auto`, `top`, or `bottom`"@,
            Bail::AutoWithoutFloat => {
                "automatic positioning is only available for floating placement"@
            },
            Bail::ParentWithoutFloat => {
                "parent-scoped positioning is currently only available for floating placement"@
            },
        }
    }

    /// The message that explains the error.
    pub fn message(self) -> (result: &'static str)
        ensures
            result@ == self.spec_message(),
    {
        match self {
            Bail::NestedPagebreak => "pagebreaks are not allowed inside of containers",
            Bail::WrapWithoutFloat => "wrapping placement is only available for floating placement",
            Bail::WrapWithoutSide => "wrapping placement requires a `left` or `right` alignment",
            Bail::WrapAligned => "wrapping placement anchors the float at its position in the text",
            Bail::WrapInParent => "wrapping placement is not supported for parent scope",
            Bail::FloatInside => "vertical floating placement must be `auto`, `top`, or `bottom`",
            Bail::AutoWithoutFloat => {
                "automatic positioning is only available for floating placement"
            },
            Bail::ParentWithoutFloat => {
                "parent-scoped positioning is currently only available for floating placement"
            },
        }
    }

    pub open spec fn spec_hint(self) -> Option<Seq<char>> {
        match self {
            Bail::NestedPagebreak => Some("try using a `#colbreak()` instead"@),
            Bail::WrapWithoutFloat | Bail::AutoWithoutFloat | Bail::ParentWithoutFloat => Some(
                "you can enable floating placement with `place(float: true, ..)`"@,
            ),
            Bail::WrapAligned => Some(
                "remove the `top`/`bottom`/`horizon` vertical alignment"@,
            ),
            _ => None,
        }
    }

    /// A hint at how to resolve the error, if there is one.
    pub fn hint(self) -> (result: Option<&'static str>)
        ensures
            match result {
                Some(hint) => self.spec_hint() == Some(hint@),
                None => self.spec_hint() is None,
            },
    {
        match self {
            Bail::NestedPagebreak => Some("try using a `#colbreak()` instead"),
            Bail::WrapWithoutFloat | Bail::AutoWithoutFloat | Bail::ParentWithoutFloat => Some(
                "you can enable floating placement with `place(float: true, ..)`",
            ),
            Bail::WrapAligned => Some("remove the `top`/`bottom`/`horizon` vertical alignment"),
            _ => None,
        }
    }
}

/// Why the flow could not be completed.
#[derive(Debug, PartialEq, Eq)]
pub enum SourceError {
    /// An element, given by its handle, cannot be part of the flow.
    Bail(u64, Bail),
    /// Work that the flow depends on failed with the given error.
    Outside(u64),
    /// A request has not been answered yet.
    Unanswered(Request),
    /// An answer is not one to the request.
    Mismatch,
}

/// What an error says.
#[verifier::ext_equal]
pub enum ErrorModel {
    Bail(u64, Bail),
    Outside(u64),
    Unanswered(RequestModel),
    Mismatch,
}

impl View for SourceError {
    type V = ErrorModel;

    open spec fn view(&self) -> ErrorModel {
        match *self {
            SourceError::Bail(id, bail) => ErrorModel::Bail(id, bail),
            SourceError::Outside(id) => ErrorModel::Outside(id),
            SourceError::Unanswered(request) => ErrorModel::Unanswered(request@),
            SourceError::Mismatch => ErrorModel::Mismatch,
        }
    }
}

/// Why the distribution into a region stops early.
#[derive(Debug, PartialEq, Eq)]
pub enum Stop {
    /// The region is finished, forced by a break or not.
    Finish(bool),
    /// The given scope needs to be laid out again.
    Relayout(PlacementScope),
    /// The flow could not be completed.
    Error(SourceError),
}

/// What a stop says.
#[verifier::ext_equal]
pub enum StopModel {
    Finish(bool),
    Relayout(PlacementScope),
    Error(ErrorModel),
}

impl View for Stop {
    type V = StopModel;

    open spec fn view(&self) -> StopModel {
        match *self {
            Stop::Finish(forced) => StopModel::Finish(forced),
            Stop::Relayout(scope) => StopModel::Relayout(scope),
            Stop::Error(error) => StopModel::Error(error@),
        }
    }
}

/// A result by what it holds.
pub open spec fn viewed<T: View, E: View>(result: Result<T, E>) -> Result<T::V, E::V> {
    match result {
        Ok(value) => Ok(value@),
        Err(error) => Err(error@),
    }
}

/// A result by what its error says.
pub open spec fn erred<T, E: View>(result: Result<T, E>) -> Result<T, E::V> {
    match result {
        Ok(value) => Ok(value),
        Err(error) => Err(error@),
    }
}

impl Verdict {
    /// What a verdict means for the flow.
    pub open spec fn spec_outcome(self) -> Result<(), StopModel> {
        match self {
            Verdict::Proceed => Ok(()),
            Verdict::Finish(forced) => Err(StopModel::Finish(forced)),
            Verdict::Relayout(scope) => Err(StopModel::Relayout(scope)),
            Verdict::Error(id) => Err(StopModel::Error(ErrorModel::Outside(id))),
        }
    }

    /// What a verdict means for the flow.
    pub fn outcome(self) -> (result: Result<(), Stop>)
        ensures
            erred(result) == self.spec_outcome(),
    {
        match self {
            Verdict::Proceed => Ok(()),
            Verdict::Finish(forced) => Err(Stop::Finish(forced)),
            Verdict::Relayout(scope) => Err(Stop::Relayout(scope)),
            Verdict::Error(id) => Err(Stop::Error(SourceError::Outside(id))),
        }
    }
}

/// The answers that are known, in the order in which they are asked for.
#[derive(Debug, PartialEq, Eq)]
pub struct Engine {
    /// The answers.
    pub answers: Vec<Answer>,
    /// How many of them have been used.
    pub next: usize,
    /// The handles of the elements that were ignored, to be warned about.
    pub sink: Vec<u64>,
}

/// What an engine holds.
#[verifier::ext_equal]
pub struct EngineModel {
    /// The answers.
    pub answers: Seq<AnswerModel>,
    /// How many of them have been used.
    pub next: nat,
    /// The elements that were ignored.
    pub sink: Seq<u64>,
}

impl View for Engine {
    type V = EngineModel;

    open spec fn view(&self) -> EngineModel {
        EngineModel {
            answers: self.answers@.map_values(|answer: Answer| answer@),
            next: self.next as nat,
            sink: self.sink@,
        }
    }
}

impl EngineModel {
    /// Puts a request: uses up the next answer if there is one.
    pub open spec fn ask(self, request: RequestModel) -> (EngineModel, Result<
        AnswerModel,
        ErrorModel,
    >) {
        if self.next >= self.answers.len() {
            (self, Err(ErrorModel::Unanswered(request)))
        } else {
            let used = EngineModel { next: self.next + 1, ..self };
            match self.answers[self.next as int] {
                AnswerModel::Failure(id) => (used, Err(ErrorModel::Outside(id))),
                answer => (used, Ok(answer)),
            }
        }
    }

    /// Puts a request that is answered by frames.
    pub open spec fn ask_frames(self, request: RequestModel) -> (EngineModel, Result<
        Seq<Frame>,
        ErrorModel,
    >) {
        match self.ask(request) {
            (engine, Ok(AnswerModel::Frames(frames))) => (engine, Ok(frames)),
            (engine, Ok(_)) => (engine, Err(ErrorModel::Mismatch)),
            (engine, Err(error)) => (engine, Err(error)),
        }
    }

    /// Puts a request that is answered by inline lines.
    pub open spec fn ask_inline(self, request: RequestModel) -> (EngineModel, Result<
        (Seq<Frame>, InlineStyle),
        ErrorModel,
    >) {
        match self.ask(request) {
            (engine, Ok(AnswerModel::Inline(frames, style))) => (engine, Ok((frames, style))),
            (engine, Ok(_)) => (engine, Err(ErrorModel::Mismatch)),
            (engine, Err(error)) => (engine, Err(error)),
        }
    }

    /// Puts a request that is answered by a frame.
    pub open spec fn ask_frame(self, request: RequestModel) -> (EngineModel, Result<
        Frame,
        ErrorModel,
    >) {
        match self.ask(request) {
            (engine, Ok(AnswerModel::Frame(frame))) => (engine, Ok(frame)),
            (engine, Ok(_)) => (engine, Err(ErrorModel::Mismatch)),
            (engine, Err(error)) => (engine, Err(error)),
        }
    }

    /// Puts a request that is answered by the insertions that wait.
    pub open spec fn ask_inserted(self, request: RequestModel) -> (EngineModel, Result<
        (Insertions, Verdict),
        ErrorModel,
    >) {
        match self.ask(request) {
            (engine, Ok(AnswerModel::Inserted(insertions, verdict))) => (
                engine,
                Ok((insertions, verdict)),
            ),
            (engine, Ok(_)) => (engine, Err(ErrorModel::Mismatch)),
            (engine, Err(error)) => (engine, Err(error)),
        }
    }

    /// Puts a request that is answered by cap heights.
    pub open spec fn ask_cap_heights(self, request: RequestModel) -> (EngineModel, Result<
        Seq<Option<Ratio>>,
        ErrorModel,
    >) {
        match self.ask(request) {
            (engine, Ok(AnswerModel::CapHeights(ratios))) => (engine, Ok(ratios)),
            (engine, Ok(_)) => (engine, Err(ErrorModel::Mismatch)),
            (engine, Err(error)) => (engine, Err(error)),
        }
    }

    /// Puts a request that is answered by a width.
    pub open spec fn ask_width(self, request: RequestModel) -> (EngineModel, Result<
        Abs,
        ErrorModel,
    >) {
        match self.ask(request) {
            (engine, Ok(AnswerModel::Width(width))) => (engine, Ok(width)),
            (engine, Ok(_)) => (engine, Err(ErrorModel::Mismatch)),
            (engine, Err(error)) => (engine, Err(error)),
        }
    }
}

impl Engine {
    /// An engine with the given answers, none of which has been used.
    pub fn new(answers: Vec<Answer>) -> (result: Engine)
        ensures
            result@.answers == answers@.map_values(|answer: Answer| answer@),
            result@.next == 0,
            result@.sink == Seq::<u64>::empty(),
    {
        Engine { answers, next: 0, sink: Vec::new() }
    }

    /// Puts a request.
    pub fn ask(&mut self, request: Request) -> (result: Result<Answer, SourceError>)
        ensures
            (final(self)@, viewed(result)) == old(self)@.ask(request@),
    {
        if self.next >= self.answers.len() {
            return Err(SourceError::Unanswered(request));
        }
        let answer = self.answers[self.next].duplicate();
        assert(answer@ == self@.answers[self.next as int]);
        self.next += 1;
        match answer {
            Answer::Failure(id) => Err(SourceError::Outside(id)),
            answer => Ok(answer),
        }
    }

    /// Puts a request that is answered by frames.
    pub fn ask_frames(&mut self, request: Request) -> (result: Result<Vec<Frame>, SourceError>)
        ensures
            (final(self)@, viewed(result)) == old(self)@.ask_frames(request@),
    {
        match self.ask(request) {
            Ok(Answer::Frames(frames)) => Ok(frames),
            Ok(_) => Err(SourceError::Mismatch),
            Err(error) => Err(error),
        }
    }

    /// Puts a request that is answered by inline lines.
    pub fn ask_inline(&mut self, request: Request) -> (result: Result<
        (Vec<Frame>, InlineStyle),
        SourceError,
    >)
        ensures
            final(self)@ == old(self)@.ask_inline(request@).0,
            match result {
                Ok((frames, style)) => old(self)@.ask_inline(request@).1 == Ok::<
                    (Seq<Frame>, InlineStyle),
                    ErrorModel,
                >((frames@, style)),
                Err(error) => old(self)@.ask_inline(request@).1 == Err::<
                    (Seq<Frame>, InlineStyle),
                    ErrorModel,
                >(error@),
            },
    {
        match self.ask(request) {
            Ok(Answer::Inline(frames, style)) => Ok((frames, style)),
            Ok(_) => Err(SourceError::Mismatch),
            Err(error) => Err(error),
        }
    }

    /// Puts a request that is answered by a frame.
    pub fn ask_frame(&mut self, request: Request) -> (result: Result<Frame, SourceError>)
        ensures
            (final(self)@, erred(result)) == old(self)@.ask_frame(request@),
    {
        match self.ask(request) {
            Ok(Answer::Frame(frame)) => Ok(frame),
            Ok(_) => Err(SourceError::Mismatch),
            Err(error) => Err(error),
        }
    }

    /// Puts a request that is answered by the insertions that wait.
    pub fn ask_inserted(&mut self, request: Request) -> (result: Result<
        (Insertions, Verdict),
        SourceError,
    >)
        ensures
            (final(self)@, erred(result)) == old(self)@.ask_inserted(request@),
    {
        match self.ask(request) {
            Ok(Answer::Inserted(insertions, verdict)) => Ok((insertions, verdict)),
            Ok(_) => Err(SourceError::Mismatch),
            Err(error) => Err(error),
        }
    }

    /// Puts a request that is answered by cap heights.
    pub fn ask_cap_heights(&mut self, request: Request) -> (result: Result<
        Vec<Option<Ratio>>,
        SourceError,
    >)
        ensures
            (final(self)@, viewed(result)) == old(self)@.ask_cap_heights(request@),
    {
        match self.ask(request) {
            Ok(Answer::CapHeights(ratios)) => Ok(ratios),
            Ok(_) => Err(SourceError::Mismatch),
            Err(error) => Err(error),
        }
    }

    /// Puts a request that is answered by a width.
    pub fn ask_width(&mut self, request: Request) -> (result: Result<Abs, SourceError>)
        ensures
            (final(self)@, erred(result)) == old(self)@.ask_width(request@),
    {
        match self.ask(request) {
            Ok(Answer::Width(width)) => Ok(width),
            Ok(_) => Err(SourceError::Mismatch),
            Err(error) => Err(error),
        }
    }
}

} // verus!
