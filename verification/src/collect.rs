//! The collection of a flow's elements into prepared children.
use vstd::prelude::*;

use crate::child::{Child, DeferredParChild, MultiChild, PlacedChild, SingleChild};
use crate::element::{
    BlockElem, Element, FlowMode, HAlignment, LineStyle, Locator, ParElem, ParSituation, PlaceElem,
    PlacementScope, Sizing, Spacing, VElem,
};
use crate::engine::{Bail, Engine, EngineModel, ErrorModel, Request, RequestModel, SourceError};
use crate::frame::{mark_par_end, par_end_marked, Frame, Tag};
use crate::geom::{Abs, FixedAlignment, Fr, Rel, Size, Smart};
use crate::lines::{build_line_children, leaded, line_children, push_leaded};

verus! {

/// How many consecutive paragraphs after a general (non-drop-cap) wrap float may be deferred to
/// continue the wrap. A photo-sized float spans only a handful of paragraphs; the distributor
/// stops once the band is exhausted, so this is just a ceiling that bounds re-layout cost. A drop
/// cap uses its exact line span instead.
pub const GENERAL_WRAP_CONTINUATION_PARS: usize = 8;

/// State for collection.
pub struct Collector<'x> {
    children: &'x [Element],
    base: Size,
    expand: bool,
    /// How many elements have been located.
    located: usize,
    output: Vec<Child>,
    par_situation: ParSituation,
    /// Remaining paragraphs that may be chained as continuations after a wrapping opener. Set
    /// when an opener is deferred; decremented as each consecutive paragraph chains; reset to zero
    /// by any paragraph that is not deferred and any other child that is not a tag, so that a run
    /// never crosses a block boundary.
    continuation_budget: usize,
}

/// What a collection has come to.
#[verifier::ext_equal]
pub struct CollectorModel {
    /// The elements to collect.
    pub children: Seq<Element>,
    /// The size that the flow is laid out into.
    pub base: Size,
    /// Whether lines expand horizontally.
    pub expand: bool,
    /// How many elements have been located.
    pub located: nat,
    /// The children prepared so far.
    pub output: Seq<Child>,
    /// Where the next paragraph stands.
    pub situation: ParSituation,
    /// How many paragraphs may still continue a wrap.
    pub budget: nat,
}

impl<'x> View for Collector<'x> {
    type V = CollectorModel;

    closed spec fn view(&self) -> CollectorModel {
        CollectorModel {
            children: self.children@,
            base: self.base,
            expand: self.expand,
            located: self.located as nat,
            output: self.output@,
            situation: self.par_situation,
            budget: self.continuation_budget as nat,
        }
    }
}

/// The index of the last child that is not a tag, or -1.
pub open spec fn last_solid(output: Seq<Child>) -> int
    decreases output.len(),
{
    if output.len() == 0 {
        -1
    } else if output.last() is Tag {
        last_solid(output.drop_last())
    } else {
        output.len() - 1
    }
}

/// The last child that is not a tag, if there is one.
pub open spec fn last_solid_child(output: Seq<Child>) -> Option<Child> {
    if last_solid(output) >= 0 {
        Some(output[last_solid(output)])
    } else {
        None
    }
}

/// Finds the last child that is not a tag.
fn find_last_solid(output: &Vec<Child>) -> (result: Option<usize>)
    ensures
        match result {
            Some(i) => i == last_solid(output@) && i < output@.len() && !(output@[i as int] is Tag),
            None => last_solid(output@) == -1,
        },
{
    let mut i = output.len();
    assert(output@.take(i as int) =~= output@);
    while i > 0
        invariant
            i <= output@.len(),
            last_solid(output@) == last_solid(output@.take(i as int)),
        decreases i,
    {
        assert(output@.take(i as int).drop_last() =~= output@.take(i - 1));
        i -= 1;
        match output[i] {
            Child::Tag(_) => {},
            _ => return Some(i),
        }
    }
    None
}

/// The child for a spacing around a block: automatic spacing is as wide as that around
/// paragraphs and weaker than given spacing.
pub open spec fn block_spacing(amount: Smart<Spacing>, par_spacing: Abs) -> Child {
    match amount {
        Smart::Auto => Child::Rel(Rel::absolute(par_spacing), 4),
        Smart::Custom(Spacing::Rel(rel)) => Child::Rel(rel, 3),
        Smart::Custom(Spacing::Fr(fr)) => Child::Fr(fr, 2),
    }
}

impl BlockElem {
    /// The block's share of the remaining space, if it is sized that way.
    pub open spec fn share(self) -> Option<Fr> {
        match self.height {
            Sizing::Fr(fr) => Some(fr),
            _ => None,
        }
    }
}

impl PlaceElem {
    /// The horizontal alignment: the start of the text unless given, and the middle where
    /// positioning is automatic.
    pub open spec fn align_x(self) -> FixedAlignment {
        match self.alignment {
            Smart::Auto => FixedAlignment::Center,
            Smart::Custom(align) => match align.x {
                Some(x) => x.fix(self.left_to_right),
                None => HAlignment::Start.fix(self.left_to_right),
            },
        }
    }

    /// The vertical alignment.
    pub open spec fn align_y(self) -> Smart<Option<FixedAlignment>> {
        match self.alignment {
            Smart::Auto => Smart::Auto,
            Smart::Custom(align) => match align.y {
                Some(y) => Smart::Custom(Some(y.fix())),
                None => Smart::Custom(None),
            },
        }
    }

    /// Why the element cannot be placed, if it cannot.
    ///
    /// A wrapping element must float, stand on the left or right, stay at its position in the
    /// text and within its column. A floating element that does not wrap must be positioned
    /// automatically, at the top or at the bottom. One that does not float must be positioned
    /// explicitly and within its column. Where several rules are broken, the first counts.
    pub open spec fn obstacle(self) -> Option<Bail> {
        if self.wrap {
            if !self.float {
                Some(Bail::WrapWithoutFloat)
            } else if self.align_x() is Center {
                Some(Bail::WrapWithoutSide)
            } else if self.align_y() != Smart::<Option<FixedAlignment>>::Custom(None) {
                Some(Bail::WrapAligned)
            } else if self.scope is Parent {
                Some(Bail::WrapInParent)
            } else {
                None
            }
        } else if self.float {
            match self.align_y() {
                Smart::Custom(None) | Smart::Custom(Some(FixedAlignment::Center)) => Some(
                    Bail::FloatInside,
                ),
                _ => None,
            }
        } else if self.align_y() is Auto {
            Some(Bail::AutoWithoutFloat)
        } else if self.scope is Parent {
            Some(Bail::ParentWithoutFloat)
        } else {
            None
        }
    }

    /// The child for the element.
    pub open spec fn placed(self, locator: Locator) -> PlacedChild {
        PlacedChild {
            align_x: self.align_x(),
            align_y: self.align_y(),
            scope: self.scope,
            float: self.float,
            wrap: self.wrap,
            wrap_active: false,
            clearance: self.clearance,
            delta: self.delta,
            elem: self.id,
            dropcap: self.dropcap,
            locator,
            alignment: self.alignment,
            location: self.location,
        }
    }
}

impl CollectorModel {
    /// The place in the introspection order of the element that is located next.
    pub open spec fn locator(self) -> Locator {
        Locator(self.located as usize)
    }

    /// With one more child.
    pub open spec fn pushed(self, child: Child) -> CollectorModel {
        CollectorModel { output: self.output.push(child), ..self }
    }

    /// With a run of wrapping paragraphs ended and nothing collected. This is also what an element
    /// that cannot be placed leaves.
    pub open spec fn run_ended(self) -> CollectorModel {
        CollectorModel { budget: 0, ..self }
    }

    /// What a paragraph leaves whose lines could not be laid out: it has been located and has ended
    /// a run of wrapping paragraphs, but nothing is collected.
    pub open spec fn par_refused(self) -> CollectorModel {
        CollectorModel { located: self.located + 1, ..self.run_ended() }
    }

    /// With explicit spacing collected. It ends a run of wrapping paragraphs.
    pub open spec fn with_v(self, elem: VElem) -> CollectorModel {
        let weakness = if elem.weak {
            1u8
        } else {
            0u8
        };
        CollectorModel {
            budget: 0,
            output: self.output.push(
                match elem.amount {
                    Spacing::Rel(rel) => Child::Rel(rel, weakness),
                    Spacing::Fr(fr) => Child::Fr(fr, weakness),
                },
            ),
            ..self
        }
    }

    /// The side-wrap float that the next paragraph wraps around, if the last child that is not a
    /// tag is one.
    pub open spec fn wrap_float(self) -> Option<PlacedChild> {
        match last_solid_child(self.output) {
            Some(Child::Placed(placed)) => if placed.float && placed.wrap {
                Some(placed)
            } else {
                None
            },
            _ => None,
        }
    }

    /// Whether the next paragraph continues a run of wrapping paragraphs.
    pub open spec fn continues(self) -> bool {
        self.budget > 0 && last_solid_child(self.output) matches Some(Child::Deferred(_))
    }

    /// The paragraph as a child that is broken into lines later.
    pub open spec fn deferred(
        self,
        elem: ParElem,
        clearance: Abs,
        dropcap: Option<usize>,
        continuation: bool,
    ) -> Child {
        Child::Deferred(
            DeferredParChild {
                elem,
                locator: self.locator(),
                base: self.base,
                expand: self.expand,
                par_situation: self.situation,
                clearance,
                dropcap,
                continuation,
            },
        )
    }

    /// With a paragraph deferred that opens a run beside the given float. The float is told that
    /// a paragraph wraps around it.
    pub open spec fn with_opener(self, elem: ParElem, float: PlacedChild) -> CollectorModel {
        CollectorModel {
            output: self.output.update(
                last_solid(self.output),
                Child::Placed(PlacedChild { wrap_active: true, ..float }),
            ).push(self.deferred(elem, float.clearance, float.dropcap, false)),
            located: self.located + 1,
            budget: match float.dropcap {
                Some(n) => n as nat,
                None => GENERAL_WRAP_CONTINUATION_PARS as nat,
            },
            situation: ParSituation::Consecutive,
            ..self
        }
    }

    /// With a paragraph deferred that continues a run.
    pub open spec fn with_continuation(self, elem: ParElem) -> CollectorModel {
        CollectorModel {
            output: self.output.push(self.deferred(elem, Abs(0), None, true)),
            located: self.located + 1,
            budget: (self.budget - 1) as nat,
            situation: ParSituation::Consecutive,
            ..self
        }
    }

    /// With a paragraph collected as lines, between paragraph spacing.
    pub open spec fn with_lines_of(self, elem: ParElem, frames: Seq<Frame>) -> CollectorModel {
        let spacing = Child::Rel(Rel::absolute(elem.spacing), 4);
        let lines = line_children(par_end_marked(frames), elem.leading, elem.style);
        CollectorModel {
            output: (self.output.push(spacing) + leaded(lines, elem.leading)).push(spacing),
            located: self.located + 1,
            budget: 0,
            situation: ParSituation::Consecutive,
            ..self
        }
    }

    /// With a paragraph collected.
    pub open spec fn with_par(self, engine: EngineModel, elem: ParElem) -> (EngineModel, Result<
        CollectorModel,
        ErrorModel,
    >) {
        match self.wrap_float() {
            Some(float) => (engine, Ok(self.with_opener(elem, float))),
            None => if self.continues() {
                (engine, Ok(self.with_continuation(elem)))
            } else {
                let request = RequestModel::Par {
                    elem,
                    locator: self.locator(),
                    base: self.base,
                    expand: self.expand,
                    situation: self.situation,
                    profile: None,
                };
                match engine.ask_frames(request) {
                    (engine, Ok(frames)) => (engine, Ok(self.with_lines_of(elem, frames))),
                    (engine, Err(error)) => (engine, Err(error)),
                }
            },
        }
    }

    /// With a block collected. It ends a run of wrapping paragraphs.
    pub open spec fn with_block(self, elem: BlockElem) -> CollectorModel {
        let alone = self.children.len() == 1;
        let child = if !elem.breakable || elem.share() is Some {
            Child::Single(
                SingleChild {
                    align: elem.align,
                    sticky: elem.sticky,
                    alone,
                    fr: elem.share(),
                    elem: elem.id,
                    locator: self.locator(),
                },
            )
        } else {
            Child::Multi(
                MultiChild {
                    align: elem.align,
                    sticky: elem.sticky,
                    alone,
                    elem: elem.id,
                    locator: self.locator(),
                },
            )
        };
        CollectorModel {
            output: self.output.push(block_spacing(elem.above, elem.par_spacing)).push(child).push(
                block_spacing(elem.below, elem.par_spacing),
            ),
            located: self.located + 1,
            budget: 0,
            situation: ParSituation::Other,
            ..self
        }
    }

    /// With a placed element collected. It ends a run of wrapping paragraphs.
    pub open spec fn with_place(self, elem: PlaceElem) -> Result<CollectorModel, ErrorModel> {
        match elem.obstacle() {
            Some(bail) => Err(ErrorModel::Bail(elem.id, bail)),
            None => Ok(
                CollectorModel {
                    output: self.output.push(Child::Placed(elem.placed(self.locator()))),
                    located: self.located + 1,
                    budget: 0,
                    ..self
                },
            ),
        }
    }

    /// With one block-level element collected.
    pub open spec fn with_element(self, engine: EngineModel, elem: Element) -> (
        EngineModel,
        Result<CollectorModel, ErrorModel>,
    ) {
        match elem {
            Element::Tag(tag) => (engine, Ok(self.pushed(Child::Tag(tag)))),
            Element::V(v) => (engine, Ok(self.with_v(v))),
            Element::Par(par) => self.with_par(engine, par),
            Element::Block(block) => (engine, Ok(self.with_block(block))),
            Element::Place(place) => (engine, self.with_place(place)),
            Element::Flush => (
                engine,
                Ok(CollectorModel { budget: 0, ..self.pushed(Child::Flush) }),
            ),
            Element::Colbreak(weak) => (
                engine,
                Ok(
                    CollectorModel {
                        budget: 0,
                        situation: ParSituation::First,
                        ..self.pushed(Child::Break(weak))
                    },
                ),
            ),
            Element::Pagebreak(id) => (engine, Err(ErrorModel::Bail(id, Bail::NestedPagebreak))),
            Element::Other(id) => (
                EngineModel { sink: engine.sink.push(id), ..engine },
                Ok(self),
            ),
        }
    }

    /// With the first `n` elements collected at block level.
    pub open spec fn block_run(self, engine: EngineModel, n: nat) -> (EngineModel, Result<
        CollectorModel,
        ErrorModel,
    >)
        decreases n,
    {
        if n == 0 {
            (engine, Ok(self))
        } else {
            match self.block_run(engine, (n - 1) as nat) {
                (engine, Ok(model)) => model.with_element(engine, self.children[n - 1]),
                (engine, Err(error)) => (engine, Err(error)),
            }
        }
    }

    /// With all elements collected at inline level: the tags at both ends as they are, what is
    /// between them as lines.
    pub open spec fn inline_run(self, engine: EngineModel) -> (EngineModel, Result<
        CollectorModel,
        ErrorModel,
    >) {
        let start = leading_tags(self.children);
        let end = tags_from(self.children, start);
        let request = RequestModel::Inline {
            start: start as usize,
            end: end as usize,
            base: self.base,
            expand: self.expand,
        };
        match engine.ask_inline(request) {
            (engine, Ok((frames, style))) => {
                let lines = line_children(frames, style.leading, style.style);
                (
                    engine,
                    Ok(
                        CollectorModel {
                            output: self.output + tag_children(self.children.take(start)) + leaded(
                                lines,
                                style.leading,
                            ) + tag_children(self.children.skip(end)),
                            ..self
                        },
                    ),
                )
            },
            (engine, Err(error)) => (engine, Err(error)),
        }
    }

    /// With all elements collected.
    pub open spec fn run(self, engine: EngineModel, mode: FlowMode) -> (EngineModel, Result<
        CollectorModel,
        ErrorModel,
    >) {
        match mode {
            FlowMode::Inline => self.inline_run(engine),
            _ => self.block_run(engine, self.children.len()),
        }
    }
}

/// How many tags the elements start with.
pub open spec fn leading_tags(children: Seq<Element>) -> int
    decreases children.len(),
{
    if children.len() > 0 && children[0] is Tag {
        1 + leading_tags(children.skip(1))
    } else {
        0
    }
}

/// The index, not before `start`, from which on all elements are tags.
pub open spec fn tags_from(children: Seq<Element>, start: int) -> int
    decreases children.len(),
{
    if children.len() > start && children.len() > 0 && children.last() is Tag {
        tags_from(children.drop_last(), start)
    } else {
        children.len() as int
    }
}

/// The children for elements that are tags.
pub open spec fn tag_children(elements: Seq<Element>) -> Seq<Child> {
    elements.map_values(
        |elem: Element|
            Child::Tag(
                match elem {
                    Element::Tag(tag) => tag,
                    _ => Tag(0),
                },
            ),
    )
}

/// A collection that has not started.
pub open spec fn collection(children: Seq<Element>, base: Size, expand: bool) -> CollectorModel {
    CollectorModel {
        children,
        base,
        expand,
        located: 0,
        output: Seq::empty(),
        situation: ParSituation::First,
        budget: 0,
    }
}

/// Collects all elements of the flow into prepared children. These are much simpler to handle
/// than the raw elements.
pub fn collect(
    engine: &mut Engine,
    children: &[Element],
    base: Size,
    expand: bool,
    mode: FlowMode,
) -> (result: Result<Vec<Child>, SourceError>)
    ensures
        final(engine)@ == collection(children@, base, expand).run(old(engine)@, mode).0,
        collected(result, collection(children@, base, expand).run(old(engine)@, mode).1),
{
    Collector::new(children, base, expand).run(engine, mode)
}

/// Whether a step of the collection went as the model says: on success to what was expected, else
/// with the expected error, to what a refused element leaves.
pub open spec fn stepped(
    result: Result<(), SourceError>,
    after: CollectorModel,
    expected: Result<CollectorModel, ErrorModel>,
    refused: CollectorModel,
) -> bool {
    match result {
        Ok(()) => expected == Ok::<CollectorModel, ErrorModel>(after),
        Err(error) => expected == Err::<CollectorModel, ErrorModel>(error@) && after == refused,
    }
}

/// Whether a collection ended as the model says, with these children or with this error.
pub open spec fn collected(
    result: Result<Vec<Child>, SourceError>,
    expected: Result<CollectorModel, ErrorModel>,
) -> bool {
    match result {
        Ok(output) => expected matches Ok(model) && model.output == output@,
        Err(error) => expected == Err::<CollectorModel, ErrorModel>(error@),
    }
}

impl<'x> Collector<'x> {
    /// Prepare a collection.
    pub fn new(children: &'x [Element], base: Size, expand: bool) -> (result: Collector<'x>)
        ensures
            result@ == collection(children@, base, expand),
    {
        Collector {
            children,
            base,
            expand,
            located: 0,
            output: Vec::with_capacity(children.len()),
            par_situation: ParSituation::First,
            continuation_budget: 0,
        }
    }

    /// Perform the collection.
    pub fn run(self, engine: &mut Engine, mode: FlowMode) -> (result: Result<
        Vec<Child>,
        SourceError,
    >)
        requires
            self@.located == 0,
        ensures
            final(engine)@ == self@.run(old(engine)@, mode).0,
            collected(result, self@.run(old(engine)@, mode).1),
    {
        match mode {
            FlowMode::Root | FlowMode::Block => self.run_block(engine),
            FlowMode::Inline => self.run_inline(engine),
        }
    }

    /// Perform collection for block-level children.
    pub fn run_block(self, engine: &mut Engine) -> (result: Result<Vec<Child>, SourceError>)
        requires
            self@.located == 0,
        ensures
            final(engine)@ == self@.block_run(old(engine)@, self@.children.len()).0,
            collected(result, self@.block_run(old(engine)@, self@.children.len()).1),
    {
        let mut collector = self;
        let ghost model = self@;
        let ghost answers = engine@;
        let len = collector.children.len();
        let mut i: usize = 0;
        while i < len
            invariant
                i <= len,
                model == self@,
                answers == old(engine)@,
                len == model.children.len(),
                collector@.children == model.children,
                collector@.located <= i,
                model.block_run(answers, i as nat) == (
                    engine@,
                    Ok::<CollectorModel, ErrorModel>(collector@),
                ),
            decreases len - i,
        {
            let ghost before = collector@;
            let ghost engine_before = engine@;
            let elem = collector.children[i];
            proof {
                lemma_block_run_stops(model, answers, (i + 1) as nat, len as nat);
            }
            match elem {
                Element::Tag(tag) => {
                    collector.output.push(Child::Tag(tag));
                },
                Element::V(v) => {
                    collector.v(v);
                },
                Element::Par(par) => {
                    match collector.par(engine, par) {
                        Ok(()) => {},
                        Err(error) => return Err(error),
                    }
                },
                Element::Block(block) => {
                    collector.block(block);
                },
                Element::Place(place) => {
                    match collector.place(place) {
                        Ok(()) => {},
                        Err(error) => return Err(error),
                    }
                },
                Element::Flush => {
                    collector.continuation_budget = 0;
                    collector.output.push(Child::Flush);
                },
                Element::Colbreak(weak) => {
                    collector.continuation_budget = 0;
                    collector.output.push(Child::Break(weak));
                    collector.par_situation = ParSituation::First;
                },
                Element::Pagebreak(id) => {
                    return Err(SourceError::Bail(id, Bail::NestedPagebreak));
                },
                Element::Other(id) => {
                    engine.sink.push(id);
                },
            }
            assert(before.with_element(engine_before, elem) == (
                engine@,
                Ok::<CollectorModel, ErrorModel>(collector@),
            ));
            i += 1;
        }
        Ok(collector.output)
    }

    /// Perform collection for inline-level children.
    pub fn run_inline(self, engine: &mut Engine) -> (result: Result<Vec<Child>, SourceError>)
        ensures
            final(engine)@ == self@.inline_run(old(engine)@).0,
            collected(result, self@.inline_run(old(engine)@).1),
    {
        let mut collector = self;

        // Extract leading and trailing tags.
        let (start, end) = split_tags(collector.children);

        // Layout the lines.
        let (frames, style) = match engine.ask_inline(
            Request::Inline { start, end, base: collector.base, expand: collector.expand },
        ) {
            Ok(answer) => answer,
            Err(error) => return Err(error),
        };

        collector.tags(0, start);
        collector.lines(&frames, style.leading, style.style);
        let len = collector.children.len();
        collector.tags(end, len);
        proof {
            let children = collector.children@;
            assert(children.subrange(0, start as int) =~= children.take(start as int));
            assert(children.subrange(end as int, len as int) =~= children.skip(end as int));
        }
        Ok(collector.output)
    }

    /// Collects the tags in a range.
    fn tags(&mut self, from: usize, to: usize)
        requires
            from <= to <= old(self)@.children.len(),
            forall|i: int| from <= i < to ==> old(self)@.children[i] is Tag,
        ensures
            final(self)@ == (CollectorModel {
                output: old(self)@.output + tag_children(
                    old(self)@.children.subrange(from as int, to as int),
                ),
                ..old(self)@
            }),
    {
        let ghost model = self@;
        let mut i = from;
        assert(model.output =~= model.output + tag_children(
            model.children.subrange(from as int, from as int),
        ));
        while i < to
            invariant
                from <= i <= to <= model.children.len(),
                forall|i: int| from <= i < to ==> model.children[i] is Tag,
                self@ == (CollectorModel {
                    output: model.output + tag_children(
                        model.children.subrange(from as int, i as int),
                    ),
                    ..model
                }),
            decreases to - i,
        {
            if let Element::Tag(tag) = self.children[i] {
                self.output.push(Child::Tag(tag));
            }
            proof {
                let done = model.children.subrange(from as int, i as int);
                let more = model.children.subrange(from as int, i + 1);
                assert(more =~= done.push(model.children[i as int]));
                assert(tag_children(more) =~= tag_children(done).push(self@.output.last()));
            }
            i += 1;
        }
    }

    /// Collect vertical spacing into a relative or fractional child.
    pub fn v(&mut self, elem: VElem)
        ensures
            final(self)@ == old(self)@.with_v(elem),
    {
        // Any explicit spacing breaks a continuation run.
        self.continuation_budget = 0;
        let weakness: u8 = if elem.weak {
            1
        } else {
            0
        };
        self.output.push(
            match elem.amount {
                Spacing::Rel(rel) => Child::Rel(rel, weakness),
                Spacing::Fr(fr) => Child::Fr(fr, weakness),
            },
        );
    }

    /// The next place in the introspection order.
    fn locate(&mut self) -> (locator: Locator)
        requires
            old(self)@.located < usize::MAX,
        ensures
            locator == old(self)@.locator(),
            final(self)@ == (CollectorModel { located: old(self)@.located + 1, ..old(self)@ }),
    {
        let locator = Locator(self.located);
        self.located += 1;
        locator
    }

    /// Collect a paragraph into lines. This already performs line layout since it is
    /// not dependent on the concrete regions, unless the paragraph wraps around a float.
    pub fn par(&mut self, engine: &mut Engine, elem: ParElem) -> (result: Result<(), SourceError>)
        requires
            old(self)@.located < usize::MAX,
        ensures
            final(engine)@ == old(self)@.with_par(old(engine)@, elem).0,
            stepped(
                result,
                final(self)@,
                old(self)@.with_par(old(engine)@, elem).1,
                old(self)@.par_refused(),
            ),
    {
        let last = match find_last_solid(&self.output) {
            Some(i) => Some((i, self.output[i])),
            None => None,
        };

        // Defer iff the immediately-preceding child (skipping only tags) is a side-wrap float.
        if let Some((i, Child::Placed(placed))) = last {
            if placed.float && placed.wrap {
                // Mark that a deferred wrapping paragraph follows this float, so the distributor
                // reserves zero height for it.
                self.output.set(i, Child::Placed(PlacedChild { wrap_active: true, ..placed }));
                // The paragraph is located before anything else happens, as it would be without
                // the float.
                let base = self.base;
                let expand = self.expand;
                let par_situation = self.par_situation;
                let locator = self.locate();
                self.output.push(
                    Child::Deferred(
                        DeferredParChild {
                            elem,
                            locator,
                            base,
                            expand,
                            par_situation,
                            clearance: placed.clearance,
                            dropcap: placed.dropcap,
                            continuation: false,
                        },
                    ),
                );
                // Open a continuation run. A drop cap bounds it by its lines. A general float
                // can't know its height in lines yet, so it gets a small static cap.
                self.continuation_budget = match placed.dropcap {
                    Some(n) => n,
                    None => GENERAL_WRAP_CONTINUATION_PARS,
                };
                self.par_situation = ParSituation::Consecutive;
                return Ok(());
            }
        }
        // The paragraph immediately follows a deferred one with budget remaining: defer it too.
        if let Some((_, Child::Deferred(_))) = last {
            if self.continuation_budget > 0 {
                let base = self.base;
                let expand = self.expand;
                let par_situation = self.par_situation;
                let locator = self.locate();
                self.output.push(
                    Child::Deferred(
                        DeferredParChild {
                            elem,
                            locator,
                            base,
                            expand,
                            par_situation,
                            clearance: Abs::zero(),
                            dropcap: None,
                            continuation: true,
                        },
                    ),
                );
                self.continuation_budget -= 1;
                self.par_situation = ParSituation::Consecutive;
                return Ok(());
            }
        }
        // Any paragraph that is not deferred ends a run.
        self.continuation_budget = 0;

        let locator = self.locate();
        let mut lines = match engine.ask_frames(
            Request::Par {
                elem,
                locator,
                base: self.base,
                expand: self.expand,
                situation: self.par_situation,
                profile: None,
            },
        ) {
            Ok(lines) => lines,
            Err(error) => return Err(error),
        };
        mark_par_end(&mut lines);

        self.output.push(Child::Rel(Rel::absolute(elem.spacing), 4));
        self.lines(&lines, elem.leading, elem.style);
        self.output.push(Child::Rel(Rel::absolute(elem.spacing), 4));
        self.par_situation = ParSituation::Consecutive;
        Ok(())
    }

    /// Collect laid-out lines, with leading between them.
    pub fn lines(&mut self, lines: &Vec<Frame>, leading: Abs, style: LineStyle)
        ensures
            final(self)@ == (CollectorModel {
                output: old(self)@.output + leaded(line_children(lines@, leading, style), leading),
                ..old(self)@
            }),
    {
        let children = build_line_children(lines, leading, style);
        push_leaded(&mut self.output, &children, leading);
    }

    /// Collect a block into a [`SingleChild`] or [`MultiChild`] depending on whether it is
    /// breakable.
    pub fn block(&mut self, elem: BlockElem)
        requires
            old(self)@.located < usize::MAX,
        ensures
            final(self)@ == old(self)@.with_block(elem),
    {
        // A block ends any continuation run.
        self.continuation_budget = 0;
        let locator = self.locate();
        let alone = self.children.len() == 1;
        let fr = match elem.height {
            Sizing::Fr(fr) => Some(fr),
            _ => None,
        };

        self.output.push(spacing_child(elem.above, elem.par_spacing));
        if !elem.breakable || fr.is_some() {
            self.output.push(
                Child::Single(
                    SingleChild {
                        align: elem.align,
                        sticky: elem.sticky,
                        alone,
                        fr,
                        elem: elem.id,
                        locator,
                    },
                ),
            );
        } else {
            self.output.push(
                Child::Multi(
                    MultiChild {
                        align: elem.align,
                        sticky: elem.sticky,
                        alone,
                        elem: elem.id,
                        locator,
                    },
                ),
            );
        }
        self.output.push(spacing_child(elem.below, elem.par_spacing));
        self.par_situation = ParSituation::Other;
    }

    /// Collects a placed element into a [`PlacedChild`].
    pub fn place(&mut self, elem: PlaceElem) -> (result: Result<(), SourceError>)
        requires
            old(self)@.located < usize::MAX,
        ensures
            stepped(
                result,
                final(self)@,
                old(self)@.with_place(elem),
                old(self)@.run_ended(),
            ),
    {
        // A placed element ends any continuation run; if it is itself a wrap float, `par`
        // re-opens the run for its own opener.
        self.continuation_budget = 0;
        let align_x = match elem.alignment {
            Smart::Auto => FixedAlignment::Center,
            Smart::Custom(align) => match align.x {
                Some(x) => x.fix(elem.left_to_right),
                None => HAlignment::Start.fix(elem.left_to_right),
            },
        };
        let align_y = match elem.alignment {
            Smart::Auto => Smart::Auto,
            Smart::Custom(align) => match align.y {
                Some(y) => Smart::Custom(Some(y.fix())),
                None => Smart::Custom(None),
            },
        };
        let in_parent = matches!(elem.scope, PlacementScope::Parent);

        if elem.wrap {
            // Side-wrapping floats anchor in place on a definite horizontal side, within a
            // single column. These rules supersede the general float rules below, since an
            // in-place vertical anchor is otherwise rejected.
            if !elem.float {
                return Err(SourceError::Bail(elem.id, Bail::WrapWithoutFloat));
            }
            if matches!(align_x, FixedAlignment::Center) {
                return Err(SourceError::Bail(elem.id, Bail::WrapWithoutSide));
            }
            if !matches!(align_y, Smart::Custom(None)) {
                return Err(SourceError::Bail(elem.id, Bail::WrapAligned));
            }
            if in_parent {
                return Err(SourceError::Bail(elem.id, Bail::WrapInParent));
            }
        } else {
            match (elem.float, align_y) {
                (true, Smart::Custom(None)) | (
                    true,
                    Smart::Custom(Some(FixedAlignment::Center)),
                ) => {
                    return Err(SourceError::Bail(elem.id, Bail::FloatInside));
                },
                (false, Smart::Auto) => {
                    return Err(SourceError::Bail(elem.id, Bail::AutoWithoutFloat));
                },
                _ => {},
            }
            if !elem.float && in_parent {
                return Err(SourceError::Bail(elem.id, Bail::ParentWithoutFloat));
            }
        }

        let locator = self.locate();
        self.output.push(
            Child::Placed(
                PlacedChild {
                    align_x,
                    align_y,
                    scope: elem.scope,
                    float: elem.float,
                    wrap: elem.wrap,
                    wrap_active: false,
                    clearance: elem.clearance,
                    delta: elem.delta,
                    elem: elem.id,
                    dropcap: elem.dropcap,
                    locator,
                    alignment: elem.alignment,
                    location: elem.location,
                },
            ),
        );
        Ok(())
    }
}

/// The child for a spacing around a block.
fn spacing_child(amount: Smart<Spacing>, par_spacing: Abs) -> (result: Child)
    ensures
        result == block_spacing(amount, par_spacing),
{
    match amount {
        Smart::Auto => Child::Rel(Rel::absolute(par_spacing), 4),
        Smart::Custom(Spacing::Rel(rel)) => Child::Rel(rel, 3),
        Smart::Custom(Spacing::Fr(fr)) => Child::Fr(fr, 2),
    }
}

/// Finds where the leading tags end and where the trailing tags start.
fn split_tags(children: &[Element]) -> (result: (usize, usize))
    ensures
        result.0 == leading_tags(children@),
        result.1 == tags_from(children@, result.0 as int),
        result.0 <= result.1 <= children@.len(),
        forall|i: int| 0 <= i < result.0 ==> children@[i] is Tag,
        forall|i: int| result.1 <= i < children@.len() ==> children@[i] is Tag,
{
    let mut start: usize = 0;
    assert(children@.skip(0) =~= children@);
    while start < children.len() && matches!(children[start], Element::Tag(_))
        invariant
            start <= children@.len(),
            leading_tags(children@) == start + leading_tags(children@.skip(start as int)),
            forall|i: int| 0 <= i < start ==> children@[i] is Tag,
        decreases children@.len() - start,
    {
        assert(children@.skip(start as int).skip(1) =~= children@.skip(start + 1));
        start += 1;
    }
    let mut end: usize = children.len();
    assert(children@.take(end as int) =~= children@);
    while end > start && matches!(children[end - 1], Element::Tag(_))
        invariant
            start <= end <= children@.len(),
            tags_from(children@, start as int) == tags_from(
                children@.take(end as int),
                start as int,
            ),
            forall|i: int| end <= i < children@.len() ==> children@[i] is Tag,
        decreases end,
    {
        assert(children@.take(end as int).drop_last() =~= children@.take(end - 1));
        end -= 1;
    }
    (start, end)
}

/// Once collection has failed, later elements do not matter.
proof fn lemma_block_run_stops(model: CollectorModel, engine: EngineModel, i: nat, n: nat)
    requires
        i <= n,
    ensures
        model.block_run(engine, i).1 is Err ==> model.block_run(engine, n) == model.block_run(
            engine,
            i,
        ),
    decreases n,
{
    if i < n {
        lemma_block_run_stops(model, engine, i, (n - 1) as nat);
    }
}

} // verus!
