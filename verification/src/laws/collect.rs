//! Laws of the collection of elements into children.
use vstd::prelude::*;

use crate::child::{Child, DeferredParChild, PlacedChild};
use crate::collect::{
    collection, last_solid, last_solid_child, CollectorModel, GENERAL_WRAP_CONTINUATION_PARS,
};
use crate::element::{Element, FlowMode, LineStyle, ParElem};
use crate::engine::EngineModel;
use crate::frame::{Frame, Tag};
use crate::geom::{Abs, FixedAlignment, Rel, Size, Smart};
use crate::lines::line_children;

verus! {

/// Whether an element takes a place in the introspection order.
pub open spec fn is_located(elem: Element) -> bool {
    elem is Par || elem is Block || elem is Place
}

/// How many of the elements take a place in the introspection order.
pub open spec fn located_in(elements: Seq<Element>) -> nat
    decreases elements.len(),
{
    if elements.len() == 0 {
        0
    } else {
        located_in(elements.drop_last()) + if is_located(elements.last()) {
            1nat
        } else {
            0nat
        }
    }
}

/// The tags among the children, in order.
pub open spec fn tags_of(output: Seq<Child>) -> Seq<Tag>
    decreases output.len(),
{
    if output.len() == 0 {
        Seq::empty()
    } else {
        match output.last() {
            Child::Tag(tag) => tags_of(output.drop_last()).push(tag),
            _ => tags_of(output.drop_last()),
        }
    }
}

/// The tags among the elements, in order.
pub open spec fn tags_in(elements: Seq<Element>) -> Seq<Tag>
    decreases elements.len(),
{
    if elements.len() == 0 {
        Seq::empty()
    } else {
        match elements.last() {
            Element::Tag(tag) => tags_in(elements.drop_last()).push(tag),
            _ => tags_in(elements.drop_last()),
        }
    }
}

/// Whether a placed child may be part of a flow: a wrapping one floats, stands on a side, at its
/// position in the text and within its column; another floating one is positioned automatically,
/// at the top or at the bottom; any other one is positioned explicitly and within its column.
pub open spec fn placement_valid(placed: PlacedChild) -> bool {
    if placed.wrap {
        &&& placed.float
        &&& !(placed.align_x is Center)
        &&& placed.align_y == Smart::<Option<FixedAlignment>>::Custom(None)
        &&& placed.scope is Column
    } else if placed.float {
        match placed.align_y {
            Smart::Auto => true,
            Smart::Custom(Some(align)) => !(align is Center),
            Smart::Custom(None) => false,
        }
    } else {
        placed.align_y is Custom && placed.scope is Column
    }
}

/// Whether a deferred paragraph stands where it may, given the child before it that is not a tag:
/// one that opens a run right after the float that it wraps around, one that continues a run right
/// after another one of the run.
pub open spec fn deferral_valid(d: DeferredParChild, before: Option<Child>) -> bool {
    if d.continuation {
        before matches Some(Child::Deferred(_))
    } else {
        &&& before matches Some(Child::Placed(placed))
        &&& placed.float && placed.wrap && placed.wrap_active
        &&& d.clearance == placed.clearance
        &&& d.dropcap == placed.dropcap
    }
}

/// How many paragraphs may continue the run that a paragraph opens.
pub open spec fn allowance(d: DeferredParChild) -> nat {
    match d.dropcap {
        Some(n) => n as nat,
        None => GENERAL_WRAP_CONTINUATION_PARS as nat,
    }
}

/// How many paragraphs may still continue a run after the child at the given index. This is
/// negative where the run is too long.
pub open spec fn allowance_left(output: Seq<Child>, i: int) -> int
    decreases i,
{
    if 0 <= i < output.len() {
        match output[i] {
            Child::Deferred(d) => if d.continuation {
                let before = last_solid(output.take(i));
                if 0 <= before < i {
                    allowance_left(output, before) - 1
                } else {
                    -1
                }
            } else {
                allowance(d) as int
            },
            _ => -1,
        }
    } else {
        -1
    }
}

/// Whether the child at the given index may stand there.
pub open spec fn child_valid(output: Seq<Child>, i: int) -> bool {
    match output[i] {
        Child::Placed(placed) => placement_valid(placed),
        Child::Deferred(d) => deferral_valid(d, last_solid_child(output.take(i)))
            && allowance_left(output, i) >= 0,
        _ => true,
    }
}

/// Whether a paragraph wraps around the float at the given index: all that stands between the two
/// are tags.
pub open spec fn wrapped_by(output: Seq<Child>, i: int, j: int) -> bool {
    &&& i < j < output.len()
    &&& output[j] matches Child::Deferred(d) && !d.continuation
    &&& forall|k: int| i < k < j ==> (#[trigger] output[k]) is Tag
}

/// Whether each float that claims so has a paragraph that wraps around it.
pub open spec fn floats_matched(output: Seq<Child>) -> bool {
    forall|i: int|
        0 <= i < output.len() && ((#[trigger] output[i]) matches Child::Placed(placed)
            && placed.wrap_active) ==> exists|j: int| #[trigger] wrapped_by(output, i, j)
}

/// Whether all children stand where they may.
pub open spec fn all_valid(output: Seq<Child>) -> bool {
    forall|i: int| 0 <= i < output.len() ==> #[trigger] child_valid(output, i)
}

/// The index of the last child that is not a tag points at such a child, and only tags follow.
proof fn lemma_last_solid(output: Seq<Child>)
    ensures
        -1 <= last_solid(output) < output.len(),
        last_solid(output) >= 0 ==> !(output[last_solid(output)] is Tag),
        forall|k: int| last_solid(output) < k < output.len() ==> (#[trigger] output[k]) is Tag,
    decreases output.len(),
{
    if output.len() > 0 && output.last() is Tag {
        let front = output.drop_last();
        lemma_last_solid(front);
        assert forall|k: int| last_solid(output) < k < output.len() implies (
        #[trigger] output[k]) is Tag by {
            if k < front.len() {
                assert(front[k] is Tag);
            }
        }
    }
}

/// What is left of an allowance only depends on the children up to the given index.
proof fn lemma_allowance_local(a: Seq<Child>, b: Seq<Child>, i: int)
    requires
        i < a.len(),
        i < b.len(),
        forall|k: int| 0 <= k <= i ==> a[k] == b[k],
    ensures
        allowance_left(a, i) == allowance_left(b, i),
    decreases i,
{
    if i >= 0 {
        assert(a.take(i) =~= b.take(i));
        let before = last_solid(a.take(i));
        if 0 <= before < i {
            lemma_allowance_local(a, b, before);
        }
    }
}

/// Whether a child may stand where it does only depends on the children up to it.
proof fn lemma_valid_local(a: Seq<Child>, b: Seq<Child>, i: int)
    requires
        0 <= i < a.len(),
        i < b.len(),
        forall|k: int| 0 <= k <= i ==> a[k] == b[k],
    ensures
        child_valid(a, i) == child_valid(b, i),
{
    assert(a.take(i) =~= b.take(i));
    lemma_allowance_local(a, b, i);
}

/// What the collection keeps: all children stand where they may, floats are matched, and the
/// budget is what is left of the current run's allowance.
pub open spec fn collector_sound(model: CollectorModel) -> bool {
    &&& all_valid(model.output)
    &&& floats_matched(model.output)
    &&& last_solid_child(model.output) matches Some(Child::Deferred(_)) ==> model.budget
        <= allowance_left(model.output, last_solid(model.output))
}

/// Children that are neither placed nor deferred can be added anywhere.
proof fn lemma_plain_child(output: Seq<Child>, child: Child)
    requires
        all_valid(output),
        floats_matched(output),
        !(child is Placed),
        !(child is Deferred),
    ensures
        all_valid(output.push(child)),
        floats_matched(output.push(child)),
{
    let after = output.push(child);
    assert forall|i: int| 0 <= i < after.len() implies #[trigger] child_valid(after, i) by {
        if i < output.len() {
            assert(child_valid(output, i));
            lemma_valid_local(output, after, i);
        }
    }
    lemma_matches_kept(output, child);
}

/// Floats stay matched when an unmatched-float-free child is added.
proof fn lemma_matches_kept(output: Seq<Child>, child: Child)
    requires
        floats_matched(output),
        child matches Child::Placed(placed) ==> !placed.wrap_active,
    ensures
        floats_matched(output.push(child)),
{
    let after = output.push(child);
    assert forall|i: int|
        0 <= i < after.len() && ((#[trigger] after[i]) matches Child::Placed(placed)
            && placed.wrap_active) implies exists|j: int| #[trigger] wrapped_by(after, i, j) by {
        assert(output[i] == after[i]);
        let j = choose|j: int| #[trigger] wrapped_by(output, i, j);
        assert(wrapped_by(after, i, j)) by {
            assert forall|k: int| i < k < j implies (#[trigger] after[k]) is Tag by {
                assert(output[k] is Tag);
            }
        }
    }
}

/// Any number of plain children can be added.
proof fn lemma_plain_children(output: Seq<Child>, more: Seq<Child>)
    requires
        all_valid(output),
        floats_matched(output),
        forall|k: int|
            0 <= k < more.len() ==> !((#[trigger] more[k]) is Placed) && !(more[k] is Deferred),
    ensures
        all_valid(output + more),
        floats_matched(output + more),
    decreases more.len(),
{
    if more.len() == 0 {
        assert(output + more =~= output);
    } else {
        let front = more.drop_last();
        assert forall|k: int| 0 <= k < front.len() implies !((#[trigger] front[k]) is Placed)
            && !(front[k] is Deferred) by {
            assert(front[k] == more[k]);
        }
        lemma_plain_children(output, front);
        assert(output + more =~= (output + front).push(more.last()));
        assert(!(more[more.len() - 1] is Placed));
        lemma_plain_child(output + front, more.last());
    }
}

/// Deferring a paragraph that opens a run keeps the collection sound.
proof fn lemma_opener_sound(model: CollectorModel, elem: ParElem, float: PlacedChild)
    requires
        collector_sound(model),
        model.wrap_float() == Some(float),
    ensures
        collector_sound(model.with_opener(elem, float)),
{
    let output = model.output;
    let i0 = last_solid(output);
    lemma_last_solid(output);
    let after = model.with_opener(elem, float).output;
    let n = output.len();
    let d = after[n as int]->Deferred_0;
    assert(child_valid(output, i0));
    assert(after.take(n as int) =~= output.update(
        i0,
        Child::Placed(PlacedChild { wrap_active: true, ..float }),
    ));
    let front = after.take(n as int);
    assert(last_solid(front) == i0) by {
        lemma_last_solid(front);
        if last_solid(front) < i0 {
            assert(front[i0] is Tag);
        } else if last_solid(front) > i0 {
            assert(output[last_solid(front)] is Tag);
        }
    }
    assert forall|i: int| 0 <= i < after.len() implies #[trigger] child_valid(after, i) by {
        if i < i0 {
            assert(child_valid(output, i));
            lemma_valid_local(output, after, i);
        } else if i == n {
            assert(allowance_left(after, i) == allowance(d));
        } else if i > i0 {
            assert(output[i] is Tag);
        }
    }
    assert forall|i: int|
        0 <= i < after.len() && ((#[trigger] after[i]) matches Child::Placed(placed)
            && placed.wrap_active) implies exists|j: int| #[trigger] wrapped_by(after, i, j) by {
        if i == i0 {
            assert(wrapped_by(after, i, n as int)) by {
                assert forall|k: int| i < k < n implies (#[trigger] after[k]) is Tag by {
                    assert(output[k] is Tag);
                }
            }
        } else {
            if i > i0 && i < n {
                assert(output[i] is Tag);
            }
            assert(output[i] == after[i]);
            let j = choose|j: int| #[trigger] wrapped_by(output, i, j);
            assert(j != i0);
            if j > i0 {
                // The float in between is not a tag.
                assert(i < i0 < j);
                assert(output[i0] is Tag);
            }
            assert(wrapped_by(after, i, j)) by {
                assert forall|k: int| i < k < j implies (#[trigger] after[k]) is Tag by {
                    assert(output[k] is Tag);
                }
            }
        }
    }
    assert(last_solid(after) == n);
}

/// Deferring a paragraph that continues a run keeps the collection sound.
proof fn lemma_continuation_sound(model: CollectorModel, elem: ParElem)
    requires
        collector_sound(model),
        model.continues(),
    ensures
        collector_sound(model.with_continuation(elem)),
{
    let output = model.output;
    let child = model.deferred(elem, Abs(0), None, true);
    let after = output.push(child);
    let n = output.len() as int;
    lemma_last_solid(output);
    assert(after.take(n) =~= output);
    lemma_allowance_local(output, after, last_solid(output));
    assert forall|i: int| 0 <= i < after.len() implies #[trigger] child_valid(after, i) by {
        if i < n {
            assert(child_valid(output, i));
            lemma_valid_local(output, after, i);
        } else {
            assert(allowance_left(after, n) == allowance_left(output, last_solid(output)) - 1);
        }
    }
    lemma_matches_kept(output, child);
    assert(last_solid(after) == n);
}

/// A child that is not a tag is the last one of its kind right after it was added.
proof fn lemma_solid_pushed(output: Seq<Child>, child: Child)
    requires
        !(child is Tag),
    ensures
        last_solid_child(output.push(child)) == Some(child),
{
    assert(output.push(child).last() == child);
}

/// A tag does not change which child is the last that is not one.
proof fn lemma_tag_pushed(output: Seq<Child>, tag: Tag)
    ensures
        last_solid(output.push(Child::Tag(tag))) == last_solid(output),
        last_solid_child(output.push(Child::Tag(tag))) == last_solid_child(output),
{
    lemma_last_solid(output);
    assert(output.push(Child::Tag(tag)).drop_last() =~= output);
}

/// Collecting an element keeps the collection sound.
proof fn lemma_element_sound(model: CollectorModel, engine: EngineModel, elem: Element)
    requires
        collector_sound(model),
    ensures
        model.with_element(engine, elem).1 matches Ok(after) ==> collector_sound(after),
{
    let output = model.output;
    match elem {
        Element::Tag(tag) => {
            lemma_plain_child(output, Child::Tag(tag));
            lemma_tag_pushed(output, tag);
            lemma_last_solid(output);
            lemma_allowance_local(output, output.push(Child::Tag(tag)), last_solid(output));
        },
        Element::V(v) => {
            let child = model.with_v(v).output.last();
            lemma_plain_child(output, child);
            lemma_solid_pushed(output, child);
        },
        Element::Par(par) => {
            match model.wrap_float() {
                Some(float) => {
                    lemma_opener_sound(model, par, float);
                },
                None => {
                    if model.continues() {
                        lemma_continuation_sound(model, par);
                    } else if let Ok(after) = model.with_par(engine, par).1 {
                        let spacing = Child::Rel(Rel::absolute(par.spacing), 4);
                        lemma_par_children(model, engine, par);
                        lemma_solid_pushed(after.output.drop_last(), spacing);
                    }
                },
            }
        },
        Element::Block(block) => {
            let after = model.with_block(block).output;
            let n = output.len() as int;
            lemma_plain_child(output, after[n]);
            lemma_plain_child(output.push(after[n]), after[n + 1]);
            lemma_plain_child(output.push(after[n]).push(after[n + 1]), after[n + 2]);
            lemma_solid_pushed(output.push(after[n]).push(after[n + 1]), after[n + 2]);
        },
        Element::Place(place) => {
            if let Ok(next) = model.with_place(place) {
                let child = next.output.last();
                let after = output.push(child);
                assert forall|i: int| 0 <= i < after.len() implies #[trigger] child_valid(
                    after,
                    i,
                ) by {
                    if i < output.len() {
                        assert(child_valid(output, i));
                        lemma_valid_local(output, after, i);
                    }
                }
                lemma_matches_kept(output, child);
                lemma_solid_pushed(output, child);
            }
        },
        Element::Flush => {
            lemma_plain_child(output, Child::Flush);
            lemma_solid_pushed(output, Child::Flush);
        },
        Element::Colbreak(weak) => {
            lemma_plain_child(output, Child::Break(weak));
            lemma_solid_pushed(output, Child::Break(weak));
        },
        _ => {},
    }
}

/// The children for the lines of a paragraph can be added anywhere.
proof fn lemma_par_children(model: CollectorModel, engine: EngineModel, par: ParElem)
    requires
        all_valid(model.output),
        floats_matched(model.output),
        model.wrap_float() is None,
        !model.continues(),
        model.with_par(engine, par).1 is Ok,
    ensures
        ({
            let after = model.with_par(engine, par).1->Ok_0;
            &&& all_valid(after.output)
            &&& floats_matched(after.output)
            &&& after.output.len() > 0
            &&& after.output.last() == Child::Rel(Rel::absolute(par.spacing), 4)
            &&& tags_of(after.output) == tags_of(model.output)
        }),
{
    let after = model.with_par(engine, par).1->Ok_0;
    let spacing = Child::Rel(Rel::absolute(par.spacing), 4);
    let lines = after.output.subrange(model.output.len() as int + 1, after.output.len() - 1);
    let led = model.output.push(spacing);
    assert(after.output =~= (led + lines).push(spacing));
    lemma_plain_child(model.output, spacing);
    lemma_plain_children(led, lines);
    lemma_plain_child(led + lines, spacing);
    lemma_no_tags_added(model.output, seq![spacing]);
    lemma_no_tags_added(led, lines);
    lemma_no_tags_added(led + lines, seq![spacing]);
    assert(model.output + seq![spacing] =~= led);
    assert((led + lines) + seq![spacing] =~= after.output);
}

/// Children that are no tags add no tags.
proof fn lemma_no_tags_added(output: Seq<Child>, more: Seq<Child>)
    requires
        forall|k: int| 0 <= k < more.len() ==> !((#[trigger] more[k]) is Tag),
    ensures
        tags_of(output + more) == tags_of(output),
    decreases more.len(),
{
    if more.len() == 0 {
        assert(output + more =~= output);
    } else {
        let front = more.drop_last();
        assert forall|k: int| 0 <= k < front.len() implies !((#[trigger] front[k]) is Tag) by {
            assert(front[k] == more[k]);
        }
        lemma_no_tags_added(output, front);
        assert((output + more).drop_last() =~= output + front);
        assert((output + more).last() == more[more.len() - 1]);
    }
}

/// Replacing a child that is no tag by another changes no tags.
proof fn lemma_no_tags_replaced(output: Seq<Child>, i: int, child: Child)
    requires
        0 <= i < output.len(),
        !(output[i] is Tag),
        !(child is Tag),
    ensures
        tags_of(output.update(i, child)) == tags_of(output),
    decreases output.len(),
{
    let after = output.update(i, child);
    if i == output.len() - 1 {
        assert(after.drop_last() =~= output.drop_last());
    } else {
        assert(after.drop_last() =~= output.drop_last().update(i, child));
        lemma_no_tags_replaced(output.drop_last(), i, child);
    }
}

/// Each element adds exactly its own tag, and takes exactly one place in the introspection order
/// if it takes any.
proof fn lemma_element_tags(model: CollectorModel, engine: EngineModel, elem: Element)
    ensures
        model.with_element(engine, elem).1 matches Ok(after) ==> {
            &&& tags_of(after.output) == match elem {
                Element::Tag(tag) => tags_of(model.output).push(tag),
                _ => tags_of(model.output),
            }
            &&& after.located == model.located + if is_located(elem) {
                1nat
            } else {
                0nat
            }
            &&& after.children == model.children
        },
{
    let output = model.output;
    if let Ok(next) = model.with_element(engine, elem).1 {
        let after = next.output;
        match elem {
            Element::Par(par) => {
                match model.wrap_float() {
                    Some(float) => {
                        lemma_last_solid(output);
                        let i0 = last_solid(output);
                        let child = Child::Placed(PlacedChild { wrap_active: true, ..float });
                        lemma_no_tags_replaced(output, i0, child);
                        lemma_no_tags_added(output.update(i0, child), seq![after.last()]);
                        assert(after =~= output.update(i0, child) + seq![after.last()]);
                    },
                    None => {
                        let more = after.skip(output.len() as int);
                        assert(after =~= output + more);
                        assert forall|k: int| 0 <= k < more.len() implies !((
                        #[trigger] more[k]) is Tag) by {
                            assert(more[k] == after[output.len() + k]);
                        }
                        lemma_no_tags_added(output, more);
                    },
                }
            },
            Element::Tag(tag) => {
                assert(after.drop_last() =~= output);
            },
            _ => {
                let more = after.skip(output.len() as int);
                assert(after =~= output + more);
                lemma_no_tags_added(output, more);
            },
        }
    }
}

/// What a collection has come to after `n` elements.
proof fn lemma_block_run(model: CollectorModel, engine: EngineModel, n: nat)
    requires
        collector_sound(model),
        n <= model.children.len(),
    ensures
        model.block_run(engine, n).1 matches Ok(after) ==> {
            &&& collector_sound(after)
            &&& after.children == model.children
            &&& tags_of(after.output) == tags_of(model.output) + tags_in(
                model.children.take(n as int),
            )
            &&& after.located == model.located + located_in(model.children.take(n as int))
        },
    decreases n,
{
    let front = model.children.take(n as int);
    if n == 0 {
        assert(front =~= Seq::<Element>::empty());
        assert(tags_of(model.output) + tags_in(front) =~= tags_of(model.output));
    } else {
        lemma_block_run(model, engine, (n - 1) as nat);
        assert(front.drop_last() =~= model.children.take(n - 1));
        let (asked, result) = model.block_run(engine, (n - 1) as nat);
        if let Ok(before) = result {
            let elem = model.children[n - 1];
            lemma_element_sound(before, asked, elem);
            lemma_element_tags(before, asked, elem);
            if let Element::Tag(tag) = elem {
                assert(tags_of(model.output) + tags_in(front) =~= (tags_of(model.output) + tags_in(
                    front.drop_last(),
                )).push(tag));
            }
        }
    }
}

/// All children that a flow is collected into stand where they may: a placement is one that is
/// allowed, a paragraph is only deferred right after the float that it wraps around or right after
/// another paragraph of the same run, and no run is longer than its float allows. A float claims
/// that a paragraph wraps around it only if one does.
pub proof fn law_collected_children_are_valid(
    children: Seq<Element>,
    base: Size,
    expand: bool,
    engine: EngineModel,
    mode: FlowMode,
)
    ensures
        collection(children, base, expand).run(engine, mode).1 matches Ok(after) ==> {
            &&& all_valid(after.output)
            &&& floats_matched(after.output)
        },
{
    let start = collection(children, base, expand);
    assert(collector_sound(start));
    match mode {
        FlowMode::Inline => {
            if let Ok(after) = start.inline_run(engine).1 {
                assert(after.output =~= start.output + after.output);
                lemma_plain_children(start.output, after.output);
            }
        },
        _ => {
            lemma_block_run(start, engine, children.len());
        },
    }
}

/// No tag is lost, invented or moved past another one when a flow of blocks is collected.
pub proof fn law_collection_keeps_tags(
    children: Seq<Element>,
    base: Size,
    expand: bool,
    engine: EngineModel,
    mode: FlowMode,
)
    requires
        !(mode is Inline),
    ensures
        collection(children, base, expand).run(engine, mode).1 matches Ok(after) ==> tags_of(
            after.output,
        ) == tags_in(children),
{
    let start = collection(children, base, expand);
    lemma_block_run(start, engine, children.len());
    assert(children.take(children.len() as int) =~= children);
    assert(tags_of(start.output) + tags_in(children) =~= tags_in(children));
}

/// The place of an element in the introspection order is how many located elements precede it,
/// whatever happens to them: in particular, a paragraph gets the same one whether it is deferred
/// or broken into lines right away.
pub proof fn law_location_ignores_deferral(
    children: Seq<Element>,
    base: Size,
    expand: bool,
    engine: EngineModel,
    n: nat,
)
    requires
        n <= children.len(),
    ensures
        collection(children, base, expand).block_run(engine, n).1 matches Ok(after)
            ==> after.located == located_in(children.take(n as int)),
{
    lemma_block_run(collection(children, base, expand), engine, n);
}

/// A deferred paragraph carries the place in the introspection order that breaking it into lines
/// right away would have used, and leaves the next place to the next element just the same.
pub proof fn law_deferred_paragraph_keeps_its_place(
    model: CollectorModel,
    engine: EngineModel,
    elem: ParElem,
)
    requires
        model.wrap_float() is Some || model.continues(),
    ensures
        model.with_par(engine, elem) matches (asked, Ok(after)) && {
            &&& asked == engine
            &&& after.output.last() matches Child::Deferred(d) && d.locator == model.locator()
                && d.par_situation == model.situation
            &&& after.located == model.located + 1
        },
{
}

/// Any element that is neither a paragraph nor a tag nor ignored ends a run, and so does a
/// paragraph that is not deferred: no paragraph after it continues the run.
pub proof fn law_run_ends_at_other_elements(
    model: CollectorModel,
    engine: EngineModel,
    elem: Element,
)
    requires
        !(elem is Tag),
        !(elem is Other),
        elem is Par ==> model.wrap_float() is None && !model.continues(),
    ensures
        model.with_element(engine, elem).1 matches Ok(after) ==> after.budget == 0
            && !after.continues(),
{
}

/// The heights of the lines from one index to another, with leading between them, as raw units.
pub open spec fn stacked(lines: Seq<Frame>, leading: Abs, from: int, to: int) -> int
    decreases to - from,
{
    if from >= to {
        0
    } else if from + 1 == to {
        lines[from].height().0 as int
    } else {
        lines[from].height().0 + leading.0 + stacked(lines, leading, from + 1, to)
    }
}

/// A line needs at least its own height.
pub proof fn law_need_covers_line(
    lines: Seq<Frame>,
    leading: Abs,
    style: LineStyle,
    i: int,
)
    requires
        0 <= i < lines.len(),
        leading.0 >= 0,
        forall|k: int| 0 <= k < lines.len() ==> (#[trigger] lines[k]).height().0 >= 0,
    ensures
        line_children(lines, leading, style)[i].need.0 >= lines[i].height().0,
{
    assert(lines[0].height().0 >= 0);
    if lines.len() >= 2 {
        assert(lines[1].height().0 >= 0);
        assert(lines[lines.len() - 1].height().0 >= 0);
        assert(lines[lines.len() - 2].height().0 >= 0);
    }
}

/// Where orphans are prevented, the first line needs room for the first two lines, and for all of
/// them if widows are prevented, too, and there are three. Where widows are prevented, the second
/// to last line needs room for the last two lines.
pub proof fn law_need_keeps_lines_together(
    lines: Seq<Frame>,
    leading: Abs,
    style: LineStyle,
)
    requires
        lines.len() >= 2,
        leading.0 >= 0,
        forall|k: int| 0 <= k < lines.len() ==> (#[trigger] lines[k]).height().0 >= 0,
        lines.len() >= 3 ==> stacked(lines, leading, 0, 3) < i64::MAX,
        stacked(lines, leading, 0, 2) < i64::MAX,
        stacked(lines, leading, lines.len() - 2, lines.len() as int) < i64::MAX,
    ensures
        ({
            let children = line_children(lines, leading, style);
            let n = lines.len();
            let orphans = style.orphan.0 > 0 && !lines[1].is_empty();
            let widows = style.widow.0 > 0 && !lines[n - 2].is_empty();
            &&& orphans && widows && n == 3 ==> children[0].need.0 == stacked(lines, leading, 0, 3)
            &&& orphans && !(widows && n == 3) ==> children[0].need.0 == stacked(
                lines,
                leading,
                0,
                2,
            )
            &&& widows && n >= 4 ==> children[n - 2].need.0 == stacked(
                lines,
                leading,
                n - 2,
                n as int,
            )
        }),
{
    assert(lines[0].height().0 >= 0);
    assert(lines[1].height().0 >= 0);
    assert(lines[lines.len() - 1].height().0 >= 0);
    assert(lines[lines.len() - 2].height().0 >= 0);
    if lines.len() >= 3 {
        assert(lines[2].height().0 >= 0);
    }
    reveal_with_fuel(stacked, 4);
}

} // verus!
