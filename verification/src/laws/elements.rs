//! Laws of what each kind of element is collected into.
use vstd::prelude::*;

use crate::child::{Child, DeferredParChild, MultiChild, PlacedChild, SingleChild};
use crate::collect::{
    collection, last_solid, leading_tags, tag_children, tags_from, CollectorModel,
};
use crate::element::{
    Alignment, BlockElem, Element, FlowMode, HAlignment, LineStyle, Locator, ParElem, ParSituation,
    PlaceElem, Sizing, Spacing, VAlignment, VElem,
};
use crate::engine::{AnswerModel, Bail, EngineModel, ErrorModel, InlineStyle, RequestModel};
use crate::frame::{mark_block_end, par_end_marked, Frame, Tag};
use crate::geom::{Abs, FixedAlignment, Rel, Size, Smart};
use crate::laws::dialogue::{comes_next, further, is_open};
use crate::lines::{leaded, line_children};

verus! {

/// The spacing that a block is set off with: given spacing is stronger than automatic spacing,
/// which is as wide as that around paragraphs, and fractional spacing is stronger still.
pub open spec fn set_off(amount: Smart<Spacing>, par_spacing: Abs) -> Child {
    match amount {
        Smart::Custom(Spacing::Rel(rel)) => Child::Rel(rel, 3),
        Smart::Custom(Spacing::Fr(fr)) => Child::Fr(fr, 2),
        Smart::Auto => Child::Rel(Rel::absolute(par_spacing), 4),
    }
}

/// A block becomes one child between the spacing above and below it. The child has the block's own
/// handle, alignment and stickiness, and knows whether the block is the only element. It is
/// unbreakable exactly if the block is or if it is sized by a fraction, which it then keeps. The
/// block ends a run of wrapping paragraphs, and a paragraph after it follows something else.
pub proof fn law_block_becomes_one_child(
    model: CollectorModel,
    engine: EngineModel,
    elem: BlockElem,
)
    ensures
        ({
            let fr = match elem.height {
                Sizing::Fr(fr) => Some(fr),
                _ => None,
            };
            let (asked, result) = model.with_element(engine, Element::Block(elem));
            &&& asked == engine
            &&& result matches Ok(after) && {
                let n = model.output.len() as int;
                &&& after.output.len() == n + 3
                &&& after.output.take(n) == model.output
                &&& after.output[n] == set_off(elem.above, elem.par_spacing)
                &&& after.output[n + 2] == set_off(elem.below, elem.par_spacing)
                &&& elem.breakable && fr is None ==> after.output[n + 1] == Child::Multi(
                    MultiChild {
                        align: elem.align,
                        sticky: elem.sticky,
                        alone: model.children.len() == 1,
                        elem: elem.id,
                        locator: Locator(model.located as usize),
                    },
                )
                &&& !elem.breakable || fr is Some ==> after.output[n + 1] == Child::Single(
                    SingleChild {
                        align: elem.align,
                        sticky: elem.sticky,
                        alone: model.children.len() == 1,
                        fr,
                        elem: elem.id,
                        locator: Locator(model.located as usize),
                    },
                )
                &&& after.located == model.located + 1
                &&& after.budget == 0
                &&& after.situation is Other
                &&& after.children == model.children
                &&& after.base == model.base
                &&& after.expand == model.expand
            }
        }),
{
    if let Ok(after) = model.with_element(engine, Element::Block(elem)).1 {
        assert(after.output.take(model.output.len() as int) =~= model.output);
    }
}

/// Where text starts, for text of the given direction.
pub open spec fn text_start(left_to_right: bool) -> FixedAlignment {
    if left_to_right {
        FixedAlignment::Start
    } else {
        FixedAlignment::End
    }
}

/// The side that a placed element stands on: in the middle where positioning is automatic, where
/// text starts if no side is given.
pub open spec fn side_of(elem: PlaceElem) -> FixedAlignment {
    match elem.alignment {
        Smart::Auto => FixedAlignment::Center,
        Smart::Custom(Alignment { x: None, .. }) => text_start(elem.left_to_right),
        Smart::Custom(Alignment { x: Some(x), .. }) => match x {
            HAlignment::Left => FixedAlignment::Start,
            HAlignment::Center => FixedAlignment::Center,
            HAlignment::Right => FixedAlignment::End,
            HAlignment::Start => text_start(elem.left_to_right),
            HAlignment::End => text_start(!elem.left_to_right),
        },
    }
}

/// Where a placed element stands vertically: automatically, as given, or in place.
pub open spec fn height_of(elem: PlaceElem) -> Smart<Option<FixedAlignment>> {
    match elem.alignment {
        Smart::Auto => Smart::Auto,
        Smart::Custom(Alignment { y: None, .. }) => Smart::Custom(None),
        Smart::Custom(Alignment { y: Some(y), .. }) => Smart::Custom(
            Some(
                match y {
                    VAlignment::Top => FixedAlignment::Start,
                    VAlignment::Horizon => FixedAlignment::Center,
                    VAlignment::Bottom => FixedAlignment::End,
                },
            ),
        ),
    }
}

/// A placed element is refused exactly if
/// - it wraps and does not float, is not on the left or right, is aligned vertically, or is placed
///   relative to the parent;
/// - it floats without wrapping and is neither positioned automatically nor at the top or bottom;
/// - it does not float and is positioned automatically or relative to the parent.
///
/// Else it becomes one child that has all of its properties, and that no paragraph wraps around
/// yet. Either way it ends a run of wrapping paragraphs.
pub proof fn law_placed_element_becomes_one_child(
    model: CollectorModel,
    engine: EngineModel,
    elem: PlaceElem,
)
    ensures
        ({
            let side = side_of(elem);
            let height = height_of(elem);
            let in_place = height matches Smart::Custom(None);
            let in_middle = height matches Smart::Custom(Some(FixedAlignment::Center));
            let bad = if elem.wrap {
                !elem.float || side is Center || !in_place || elem.scope is Parent
            } else if elem.float {
                in_place || in_middle
            } else {
                height is Auto || elem.scope is Parent
            };
            let (asked, result) = model.with_element(engine, Element::Place(elem));
            &&& asked == engine
            &&& bad <==> result is Err
            &&& result matches Err(error) ==> (error matches ErrorModel::Bail(id, bail) && {
                &&& id == elem.id
                &&& elem.wrap && !elem.float ==> bail is WrapWithoutFloat
                &&& elem.wrap && elem.float && side is Center ==> bail is WrapWithoutSide
                &&& elem.wrap && elem.float && !(side is Center) && !in_place ==> bail
                    is WrapAligned
                &&& elem.wrap && elem.float && !(side is Center) && in_place ==> bail
                    is WrapInParent
                &&& !elem.wrap && elem.float ==> bail is FloatInside
                &&& !elem.wrap && !elem.float && height is Auto ==> bail is AutoWithoutFloat
                &&& !elem.wrap && !elem.float && !(height is Auto) ==> bail is ParentWithoutFloat
            })
            &&& result matches Ok(after) ==> {
                &&& after.output == model.output.push(
                    Child::Placed(
                        PlacedChild {
                            align_x: side,
                            align_y: height,
                            scope: elem.scope,
                            float: elem.float,
                            wrap: elem.wrap,
                            wrap_active: false,
                            clearance: elem.clearance,
                            delta: elem.delta,
                            elem: elem.id,
                            dropcap: elem.dropcap,
                            locator: Locator(model.located as usize),
                            alignment: elem.alignment,
                            location: elem.location,
                        },
                    ),
                )
                &&& after.located == model.located + 1
                &&& after.budget == 0
                &&& after.situation == model.situation
                &&& after.children == model.children
                &&& after.base == model.base
                &&& after.expand == model.expand
            }
        }),
{
}

/// Explicit spacing becomes spacing of its amount, which only collapses if it is weak, and ends a
/// run of wrapping paragraphs. A float flush and a column break become just that. After a column
/// break a paragraph is the first one again. A tag is kept as it is. A page break is refused. Any
/// other element becomes nothing and is noted for a warning.
pub proof fn law_other_elements_become_what_they_are(
    model: CollectorModel,
    engine: EngineModel,
    v: VElem,
    tag: Tag,
    weak: bool,
    id: u64,
)
    ensures
        model.with_element(engine, Element::V(v)) == (
            engine,
            Ok::<CollectorModel, ErrorModel>(
                CollectorModel {
                    output: model.output.push(
                        match v.amount {
                            Spacing::Rel(rel) => Child::Rel(
                                rel,
                                if v.weak {
                                    1
                                } else {
                                    0
                                },
                            ),
                            Spacing::Fr(fr) => Child::Fr(
                                fr,
                                if v.weak {
                                    1
                                } else {
                                    0
                                },
                            ),
                        },
                    ),
                    budget: 0,
                    ..model
                },
            ),
        ),
        model.with_element(engine, Element::Tag(tag)) == (
            engine,
            Ok::<CollectorModel, ErrorModel>(
                CollectorModel { output: model.output.push(Child::Tag(tag)), ..model },
            ),
        ),
        model.with_element(engine, Element::Flush) == (
            engine,
            Ok::<CollectorModel, ErrorModel>(
                CollectorModel { output: model.output.push(Child::Flush), budget: 0, ..model },
            ),
        ),
        model.with_element(engine, Element::Colbreak(weak)) == (
            engine,
            Ok::<CollectorModel, ErrorModel>(
                CollectorModel {
                    output: model.output.push(Child::Break(weak)),
                    budget: 0,
                    situation: ParSituation::First,
                    ..model
                },
            ),
        ),
        model.with_element(engine, Element::Pagebreak(id)) == (
            engine,
            Err::<CollectorModel, ErrorModel>(ErrorModel::Bail(id, Bail::NestedPagebreak)),
        ),
        model.with_element(engine, Element::Other(id)) == (
            EngineModel {
                answers: engine.answers,
                next: engine.next,
                sink: engine.sink.push(id),
            },
            Ok::<CollectorModel, ErrorModel>(model),
        ),
{
}

/// The index of the last child but tags is the one that only tags follow.
proof fn lemma_last_solid(output: Seq<Child>, i: int)
    requires
        -1 <= i < output.len(),
        forall|k: int| i < k < output.len() ==> (#[trigger] output[k]) is Tag,
        i >= 0 ==> !(output[i] is Tag),
    ensures
        last_solid(output) == i,
    decreases output.len(),
{
    if output.len() > 0 && i < output.len() - 1 {
        assert(output[output.len() - 1] is Tag);
        assert forall|k: int| i < k < output.drop_last().len() implies (
        #[trigger] output.drop_last()[k]) is Tag by {
            assert(output[k] is Tag);
        }
        lemma_last_solid(output.drop_last(), i);
    }
}

/// A paragraph is broken beside a float later on if only tags stand between the two. It takes over
/// the float's clearance and its span as a drop cap, and the float is told that a paragraph wraps
/// around it. As many paragraphs may continue the wrap as the drop cap spans lines, or eight beside
/// any other float.
pub proof fn law_paragraph_after_wrap_float_is_deferred(
    model: CollectorModel,
    engine: EngineModel,
    elem: ParElem,
    i: int,
    float: PlacedChild,
)
    requires
        0 <= i < model.output.len(),
        forall|k: int| i < k < model.output.len() ==> (#[trigger] model.output[k]) is Tag,
        model.output[i] == Child::Placed(float),
        float.float,
        float.wrap,
    ensures
        model.with_element(engine, Element::Par(elem)) == (
            engine,
            Ok::<CollectorModel, ErrorModel>(
                CollectorModel {
                    output: model.output.update(
                        i,
                        Child::Placed(PlacedChild { wrap_active: true, ..float }),
                    ).push(
                        Child::Deferred(
                            DeferredParChild {
                                elem,
                                locator: Locator(model.located as usize),
                                base: model.base,
                                expand: model.expand,
                                par_situation: model.situation,
                                clearance: float.clearance,
                                dropcap: float.dropcap,
                                continuation: false,
                            },
                        ),
                    ),
                    located: model.located + 1,
                    situation: ParSituation::Consecutive,
                    budget: match float.dropcap {
                        Some(lines) => lines as nat,
                        None => 8,
                    },
                    ..model
                },
            ),
        ),
{
    lemma_last_solid(model.output, i);
}

/// A paragraph that only tags separate from a deferred one is deferred, too, as long as the run may
/// go on, which then is for one paragraph less.
pub proof fn law_paragraph_after_deferred_one_continues(
    model: CollectorModel,
    engine: EngineModel,
    elem: ParElem,
    i: int,
)
    requires
        0 <= i < model.output.len(),
        forall|k: int| i < k < model.output.len() ==> (#[trigger] model.output[k]) is Tag,
        model.output[i] is Deferred,
        model.budget > 0,
    ensures
        model.with_element(engine, Element::Par(elem)) == (
            engine,
            Ok::<CollectorModel, ErrorModel>(
                CollectorModel {
                    output: model.output.push(
                        Child::Deferred(
                            DeferredParChild {
                                elem,
                                locator: Locator(model.located as usize),
                                base: model.base,
                                expand: model.expand,
                                par_situation: model.situation,
                                clearance: Abs(0),
                                dropcap: None,
                                continuation: true,
                            },
                        ),
                    ),
                    located: model.located + 1,
                    situation: ParSituation::Consecutive,
                    budget: (model.budget - 1) as nat,
                    ..model
                },
            ),
        ),
{
    lemma_last_solid(model.output, i);
}

/// Whether children are lines alternating with leading, all of the given alignment, in order.
pub open spec fn alternate(
    children: Seq<Child>,
    from: int,
    frames: Seq<Frame>,
    leading: Abs,
    style: LineStyle,
) -> bool {
    &&& forall|k: int|
        0 <= k < frames.len() ==> ((#[trigger] children[from + 2 * k]) matches Child::Line(line)
            && line.frame == frames[k] && line.align == style.align)
    &&& forall|k: int|
        0 < k < frames.len() ==> #[trigger] children[from + 2 * k - 1] == Child::Rel(
            Rel::absolute(leading),
            5,
        )
}

/// Any other paragraph is broken into lines right away, at full width. Its lines come in order
/// between the spacing of the paragraph, with leading between them, of which the weakness is such
/// that the spacing wins. Only the hint of the last line may change.
pub proof fn law_paragraph_becomes_its_lines(
    model: CollectorModel,
    engine: EngineModel,
    elem: ParElem,
    i: int,
    frames: Seq<Frame>,
)
    requires
        -1 <= i < model.output.len(),
        forall|k: int| i < k < model.output.len() ==> (#[trigger] model.output[k]) is Tag,
        i >= 0 ==> !(model.output[i] is Tag),
        i >= 0 ==> !(model.output[i] matches Child::Placed(float) && float.float && float.wrap),
        i >= 0 && model.budget > 0 ==> !(model.output[i] is Deferred),
    ensures
        is_open(engine) ==> model.with_element(engine, Element::Par(elem)) == (
            engine,
            Err::<CollectorModel, ErrorModel>(
                ErrorModel::Unanswered(
                    RequestModel::Par {
                        elem,
                        locator: Locator(model.located as usize),
                        base: model.base,
                        expand: model.expand,
                        situation: model.situation,
                        profile: None,
                    },
                ),
            ),
        ),
        comes_next(engine, seq![AnswerModel::Frames(frames)]) ==> {
            let (asked, result) = model.with_element(engine, Element::Par(elem));
            let spacing = Child::Rel(Rel::absolute(elem.spacing), 4);
            let n = model.output.len() as int;
            let len = frames.len() as int;
            let last = n + 1 + if len > 0 {
                2 * len - 1
            } else {
                0
            };
            &&& asked == further(engine, 1)
            &&& result matches Ok(after) && {
                &&& after.output.len() == last + 1
                &&& after.output.take(n) == model.output
                &&& after.output[n] == spacing
                &&& after.output[last] == spacing
                &&& alternate(
                    after.output,
                    n + 1,
                    if len > 0 && frames[len - 1].hint == '\0' {
                        frames.update(len - 1, Frame { hint: '\n', ..frames[len - 1] })
                    } else {
                        frames
                    },
                    elem.leading,
                    elem.style,
                )
                &&& after.located == model.located + 1
                &&& after.budget == 0
                &&& after.situation is Consecutive
            }
        },
{
    lemma_last_solid(model.output, i);
    if comes_next(engine, seq![AnswerModel::Frames(frames)]) {
        let answers = seq![AnswerModel::Frames(frames)];
        assert(answers[0] == engine.answers[engine.next as int]);
        let after = model.with_element(engine, Element::Par(elem)).1->Ok_0;
        let n = model.output.len() as int;
        let marked = par_end_marked(frames);
        assert(after.output.take(n) =~= model.output);
        lemma_alternate(
            model.output.push(Child::Rel(Rel::absolute(elem.spacing), 4)),
            marked,
            elem.leading,
            elem.style,
            Child::Rel(Rel::absolute(elem.spacing), 4),
        );
    }
}

/// Lines that are collected alternate with the leading between them.
proof fn lemma_alternate(
    before: Seq<Child>,
    frames: Seq<Frame>,
    leading: Abs,
    style: LineStyle,
    behind: Child,
)
    ensures
        alternate(
            (before + leaded(line_children(frames, leading, style), leading)).push(behind),
            before.len() as int,
            frames,
            leading,
            style,
        ),
{
    let lines = leaded(line_children(frames, leading, style), leading);
    let all = (before + lines).push(behind);
    let n = before.len() as int;
    assert forall|k: int| 0 <= k < frames.len() implies ((#[trigger] all[n + 2 * k]) matches
        Child::Line(line) && line.frame == frames[k] && line.align == style.align) by {
        assert((2 * k) % 2 == 0 && (2 * k) / 2 == k);
        assert(all[n + 2 * k] == lines[2 * k]);
    }
    assert forall|k: int| 0 < k < frames.len() implies #[trigger] all[n + 2 * k - 1] == Child::Rel(
        Rel::absolute(leading),
        5,
    ) by {
        assert((2 * k - 1) % 2 == 1);
        assert(all[n + 2 * k - 1] == lines[2 * k - 1]);
    }
}

/// Marking the end of a paragraph changes nothing but the hint of its last line, and that only if
/// there is none.
pub proof fn law_only_missing_hint_is_set(frames: Seq<Frame>)
    ensures
        par_end_marked(frames).len() == frames.len(),
        forall|k: int|
            0 <= k < frames.len() - 1 ==> #[trigger] par_end_marked(frames)[k] == frames[k],
        frames.len() > 0 ==> {
            let (last, marked) = (frames.last(), par_end_marked(frames).last());
            if last.hint == '\0' {
                marked == Frame { hint: '\n', ..last }
            } else {
                marked == last
            }
        },
{
}

/// A line that is not kept together with others needs no more than its own height: any but the
/// first one where orphans are prevented, and but the second to last one of at least four where
/// widows are.
pub proof fn law_other_lines_need_their_own_height(
    frames: Seq<Frame>,
    leading: Abs,
    style: LineStyle,
    i: int,
)
    requires
        0 <= i < frames.len(),
    ensures
        line_children(frames, leading, style).len() == frames.len(),
        line_children(frames, leading, style)[i].frame == frames[i],
        line_children(frames, leading, style)[i].align == style.align,
        ({
            let n = frames.len() as int;
            let orphans = style.orphan.0 > 0 && n >= 2 && !frames[1].is_empty();
            let widows = style.widow.0 > 0 && n >= 2 && !frames[n - 2].is_empty();
            !(orphans && i == 0) && !(widows && i >= 2 && i + 2 == n) ==> line_children(
                frames,
                leading,
                style,
            )[i].need == frames[i].size.y
        }),
{
}

/// Inline content becomes lines with the leading of its styles between them. The tags at both ends
/// are kept as they are around the lines, and all that is between them is broken into lines at
/// once: from the first element that is no tag up to the last one.
pub proof fn law_inline_content_becomes_lines_between_tags(
    model: CollectorModel,
    engine: EngineModel,
    start: int,
    end: int,
    frames: Seq<Frame>,
    style: InlineStyle,
)
    requires
        0 <= start <= end <= model.children.len() <= usize::MAX,
        forall|k: int| 0 <= k < start ==> (#[trigger] model.children[k]) is Tag,
        forall|k: int| end <= k < model.children.len() ==> (#[trigger] model.children[k]) is Tag,
        start < model.children.len() ==> !(model.children[start] is Tag),
        end > start ==> !(model.children[end - 1] is Tag),
    ensures
        is_open(engine) ==> model.run(engine, FlowMode::Inline) == (
            engine,
            Err::<CollectorModel, ErrorModel>(
                ErrorModel::Unanswered(
                    RequestModel::Inline {
                        start: start as usize,
                        end: end as usize,
                        base: model.base,
                        expand: model.expand,
                    },
                ),
            ),
        ),
        comes_next(engine, seq![AnswerModel::Inline(frames, style)]) ==> {
            let (asked, result) = model.run(engine, FlowMode::Inline);
            let n = model.output.len() as int;
            let m = n + start + if frames.len() > 0 {
                2 * frames.len() - 1
            } else {
                0
            };
            &&& asked == further(engine, 1)
            &&& result matches Ok(after) && {
                &&& after.output.len() == m + model.children.len() - end
                &&& after.output.take(n) == model.output
                &&& forall|k: int|
                    0 <= k < start ==> (model.children[k] matches Element::Tag(tag) ==> (
                    #[trigger] after.output[n + k]) == Child::Tag(tag))
                &&& alternate(after.output, n + start, frames, style.leading, style.style)
                &&& forall|k: int|
                    end <= k < model.children.len() ==> (model.children[k] matches Element::Tag(tag)
                        ==> (#[trigger] after.output[m + k - end]) == Child::Tag(tag))
            }
        },
{
    lemma_leading_tags(model.children, start);
    lemma_trailing_tags(model.children, start, end);
    if comes_next(engine, seq![AnswerModel::Inline(frames, style)]) {
        let answers = seq![AnswerModel::Inline(frames, style)];
        assert(answers[0] == engine.answers[engine.next as int]);
        let after = model.run(engine, FlowMode::Inline).1->Ok_0;
        let n = model.output.len() as int;
        let lines = leaded(line_children(frames, style.leading, style.style), style.leading);
        let before = model.output + tag_children(model.children.take(start));
        let behind = tag_children(model.children.skip(end));
        assert(after.output =~= before + lines + behind);
        assert(after.output.take(n) =~= model.output);
        lemma_alternate(before, frames, style.leading, style.style, Child::Flush);
        let all = (before + lines).push(Child::Flush);
        assert forall|k: int| 0 <= k < frames.len() implies ((
        #[trigger] after.output[n + start + 2 * k]) matches Child::Line(line) && line.frame
            == frames[k] && line.align == style.style.align) by {
            assert(all[before.len() + 2 * k] == after.output[n + start + 2 * k]);
        }
        assert forall|k: int| 0 < k < frames.len() implies #[trigger] after.output[n + start + 2 * k
            - 1] == Child::Rel(Rel::absolute(style.leading), 5) by {
            assert(all[before.len() + 2 * k - 1] == after.output[n + start + 2 * k - 1]);
        }
    }
}

/// The leading tags end at the first element that is no tag.
proof fn lemma_leading_tags(children: Seq<Element>, start: int)
    requires
        0 <= start <= children.len(),
        forall|k: int| 0 <= k < start ==> (#[trigger] children[k]) is Tag,
        start < children.len() ==> !(children[start] is Tag),
    ensures
        leading_tags(children) == start,
    decreases start,
{
    if start > 0 {
        let rest = children.skip(1);
        assert forall|k: int| 0 <= k < start - 1 implies (#[trigger] rest[k]) is Tag by {
            assert(children[k + 1] is Tag);
        }
        assert(children[0] is Tag);
        lemma_leading_tags(rest, start - 1);
    }
}

/// The trailing tags start after the last element that is no tag.
proof fn lemma_trailing_tags(children: Seq<Element>, start: int, end: int)
    requires
        0 <= start <= end <= children.len(),
        forall|k: int| end <= k < children.len() ==> (#[trigger] children[k]) is Tag,
        end > start ==> !(children[end - 1] is Tag),
    ensures
        tags_from(children, start) == end,
    decreases children.len(),
{
    if children.len() > end {
        let front = children.drop_last();
        assert(children[children.len() - 1] is Tag);
        assert forall|k: int| end <= k < front.len() implies (#[trigger] front[k]) is Tag by {
            assert(children[k] is Tag);
        }
        lemma_trailing_tags(front, start, end);
    }
}

/// Elements at block level are collected one after the other, each on top of what those before it
/// came to, until one is refused.
pub proof fn law_elements_are_collected_in_order(
    model: CollectorModel,
    engine: EngineModel,
    mode: FlowMode,
    n: nat,
)
    requires
        !(mode is Inline),
        n < model.children.len(),
    ensures
        model.block_run(engine, 0) == (engine, Ok::<CollectorModel, ErrorModel>(model)),
        model.block_run(engine, n) matches (asked, Ok(after)) ==> model.block_run(engine, n + 1)
            == after.with_element(asked, model.children[n as int]),
        model.block_run(engine, n).1 is Err ==> model.block_run(engine, n + 1) == model.block_run(
            engine,
            n,
        ),
        model.run(engine, mode) == model.block_run(engine, model.children.len()),
{
}

/// A collection starts with nothing collected, before the first paragraph.
pub proof fn law_collection_starts_empty(children: Seq<Element>, base: Size, expand: bool)
    ensures
        collection(children, base, expand) == (CollectorModel {
            children,
            base,
            expand,
            located: 0,
            output: Seq::empty(),
            situation: ParSituation::First,
            budget: 0,
        }),
{
}

/// The frame of an unbreakable block is hinted to end a line of text, unless it draws nothing.
/// Nothing else of it changes.
pub proof fn law_block_ends_a_line_of_text(frame: Frame)
    ensures
        frame.content is Empty ==> mark_block_end(frame) == frame,
        !(frame.content is Empty) ==> mark_block_end(frame) == (Frame { hint: '\n', ..frame }),
        frame.is_empty() <==> frame.content is Empty,
{
}

} // verus!
