use flow::child::{Child, DeferredParChild};
use flow::collect::{collect, Collector, GENERAL_WRAP_CONTINUATION_PARS};
use flow::element::{
    Alignment, BlockElem, Element, FlowMode, HAlignment, LineStyle, Location, Locator, ParElem,
    ParSituation, PlaceElem, PlacementScope, Sizing, Spacing, VAlignment, VElem,
};
use flow::engine::{Answer, Bail, Engine, InlineStyle, Request, SourceError};
use flow::frame::{Content, Frame, Tag};
use flow::geom::{Abs, Axes, FixedAlignment, Fr, Ratio, Rel, Size, Smart};
use flow::lines::build_line_children;

fn base() -> Size {
    Axes { x: Abs::pt(200), y: Abs::pt(400) }
}

fn align() -> Axes<FixedAlignment> {
    Axes { x: FixedAlignment::Start, y: FixedAlignment::Start }
}

fn style(orphan: i64, widow: i64) -> LineStyle {
    LineStyle { align: align(), orphan: Ratio(orphan), widow: Ratio(widow) }
}

fn frame(id: u64, height: i64) -> Frame {
    Frame {
        id,
        size: Axes { x: Abs::pt(100), y: Abs::pt(height) },
        baseline: None,
        content: Content::Visible,
        hint: '\0',
        scale: None,
        parent: None,
    }
}

fn par(id: u64) -> ParElem {
    ParElem {
        id,
        spacing: Abs::pt(12),
        leading: Abs::pt(4),
        text_size: Abs::pt(10),
        style: style(0, 0),
    }
}

fn place(id: u64) -> PlaceElem {
    PlaceElem {
        id,
        alignment: Smart::Custom(Alignment { x: Some(HAlignment::Left), y: None }),
        left_to_right: true,
        scope: PlacementScope::Column,
        float: true,
        wrap: true,
        dropcap: None,
        clearance: Abs::pt(6),
        delta: Axes { x: Rel::absolute(Abs(0)), y: Rel::absolute(Abs(0)) },
        location: Location(id),
    }
}

fn block(id: u64) -> BlockElem {
    BlockElem {
        id,
        align: align(),
        sticky: false,
        breakable: true,
        height: Sizing::Auto,
        above: Smart::Auto,
        below: Smart::Custom(Spacing::Rel(Rel::absolute(Abs::pt(3)))),
        par_spacing: Abs::pt(12),
    }
}

fn v(weak: bool) -> Element {
    Element::V(VElem { amount: Spacing::Rel(Rel::absolute(Abs::pt(5))), weak })
}

fn run(answers: Vec<Answer>, elements: &[Element]) -> Result<Vec<Child>, SourceError> {
    let mut engine = Engine::new(answers);
    collect(&mut engine, elements, base(), false, FlowMode::Root)
}

fn deferred(child: &Child) -> &DeferredParChild {
    match child {
        Child::Deferred(d) => d,
        other => panic!("{:?}", other),
    }
}

#[test]
fn paragraph_becomes_lines_between_spacing() {
    let lines = vec![frame(1, 10), frame(2, 11)];
    let output = run(vec![Answer::Frames(lines)], &[Element::Par(par(0))]).unwrap();
    let mut last = frame(2, 11);
    last.hint = '\n';
    let children = build_line_children(&vec![frame(1, 10), last], Abs::pt(4), style(0, 0));
    assert_eq!(
        output,
        vec![
            Child::Rel(Rel::absolute(Abs::pt(12)), 4),
            Child::Line(children[0]),
            Child::Rel(Rel::absolute(Abs::pt(4)), 5),
            Child::Line(children[1]),
            Child::Rel(Rel::absolute(Abs::pt(12)), 4),
        ]
    );
}

#[test]
fn hint_of_last_line_is_kept() {
    let mut line = frame(1, 10);
    line.hint = 'x';
    let output = run(vec![Answer::Frames(vec![line])], &[Element::Par(par(0))]).unwrap();
    assert!(matches!(output[1], Child::Line(child) if child.frame.hint == 'x'));
}

#[test]
fn paragraph_without_lines_keeps_its_spacing() {
    let output = run(vec![Answer::Frames(vec![])], &[Element::Par(par(0))]).unwrap();
    let spacing = Child::Rel(Rel::absolute(Abs::pt(12)), 4);
    assert_eq!(output, vec![spacing, spacing]);
}

#[test]
fn open_request_tells_what_is_needed() {
    let error = run(vec![], &[Element::Tag(Tag(1)), Element::Par(par(7))]).unwrap_err();
    assert_eq!(
        error,
        SourceError::Unanswered(Request::Par {
            elem: par(7),
            locator: Locator(0),
            base: base(),
            expand: false,
            situation: ParSituation::First,
            profile: None,
        })
    );
}

#[test]
fn wrong_answer_is_a_mismatch() {
    let error = run(vec![Answer::Width(Abs(0))], &[Element::Par(par(7))]).unwrap_err();
    assert_eq!(error, SourceError::Mismatch);
}

#[test]
fn failed_work_fails_the_collection() {
    let error = run(vec![Answer::Failure(42)], &[Element::Par(par(7))]).unwrap_err();
    assert_eq!(error, SourceError::Outside(42));
}

#[test]
fn ignored_elements_are_warned_about() {
    let mut engine = Engine::new(vec![]);
    let elements = [Element::Other(5), Element::Flush, Element::Other(6)];
    let output = collect(&mut engine, &elements, base(), false, FlowMode::Block).unwrap();
    assert_eq!(output, vec![Child::Flush]);
    assert_eq!(engine.sink, vec![5, 6]);
}

#[test]
fn pagebreak_is_refused() {
    let error = run(vec![], &[Element::Flush, Element::Pagebreak(9)]).unwrap_err();
    assert_eq!(error, SourceError::Bail(9, Bail::NestedPagebreak));
    assert_eq!(
        Bail::NestedPagebreak.message(),
        "pagebreaks are not allowed inside of containers"
    );
    assert_eq!(Bail::NestedPagebreak.hint(), Some("try using a `#colbreak()` instead"));
}

fn refused(elem: PlaceElem) -> Bail {
    match run(vec![], &[Element::Place(elem)]) {
        Err(SourceError::Bail(id, bail)) => {
            assert_eq!(id, elem.id);
            bail
        }
        other => panic!("{:?}", other),
    }
}

const FLOAT_HINT: Option<&str> =
    Some("you can enable floating placement with `place(float: true, ..)`");

#[test]
fn wrapping_must_float() {
    let bail = refused(PlaceElem { float: false, ..place(1) });
    assert_eq!(bail, Bail::WrapWithoutFloat);
    assert_eq!(
        bail.message(),
        "wrapping placement is only available for floating placement"
    );
    assert_eq!(bail.hint(), FLOAT_HINT);
}

#[test]
fn wrapping_needs_a_side() {
    let bail = refused(PlaceElem { alignment: Smart::Auto, ..place(1) });
    assert_eq!(bail, Bail::WrapWithoutSide);
    let centered = Smart::Custom(Alignment { x: Some(HAlignment::Center), y: None });
    assert_eq!(refused(PlaceElem { alignment: centered, ..place(1) }), bail);
    assert_eq!(
        bail.message(),
        "wrapping placement requires a `left` or `right` alignment"
    );
    assert_eq!(bail.hint(), None);
}

#[test]
fn wrapping_anchors_in_place() {
    let top = Alignment { x: Some(HAlignment::Right), y: Some(VAlignment::Top) };
    let bail = refused(PlaceElem { alignment: Smart::Custom(top), ..place(1) });
    assert_eq!(bail, Bail::WrapAligned);
    assert_eq!(
        bail.message(),
        "wrapping placement anchors the float at its position in the text"
    );
    assert_eq!(
        bail.hint(),
        Some("remove the `top`/`bottom`/`horizon` vertical alignment")
    );
}

#[test]
fn wrapping_stays_in_its_column() {
    let bail = refused(PlaceElem { scope: PlacementScope::Parent, ..place(1) });
    assert_eq!(bail, Bail::WrapInParent);
    assert_eq!(bail.message(), "wrapping placement is not supported for parent scope");
    assert_eq!(bail.hint(), None);
}

#[test]
fn floating_is_vertically_at_an_edge() {
    let inside = PlaceElem { wrap: false, ..place(1) };
    let bail = refused(inside);
    assert_eq!(bail, Bail::FloatInside);
    let horizon = Alignment { x: None, y: Some(VAlignment::Horizon) };
    assert_eq!(refused(PlaceElem { alignment: Smart::Custom(horizon), ..inside }), bail);
    assert_eq!(
        bail.message(),
        "vertical floating placement must be `auto`, `top`, or `bottom`"
    );
    assert_eq!(bail.hint(), None);
}

#[test]
fn automatic_positioning_must_float() {
    let elem = PlaceElem { wrap: false, float: false, alignment: Smart::Auto, ..place(1) };
    let bail = refused(elem);
    assert_eq!(bail, Bail::AutoWithoutFloat);
    assert_eq!(
        bail.message(),
        "automatic positioning is only available for floating placement"
    );
    assert_eq!(bail.hint(), FLOAT_HINT);
}

#[test]
fn parent_scope_must_float() {
    let elem = PlaceElem {
        wrap: false,
        float: false,
        scope: PlacementScope::Parent,
        ..place(1)
    };
    let bail = refused(elem);
    assert_eq!(bail, Bail::ParentWithoutFloat);
    assert_eq!(
        bail.message(),
        "parent-scoped positioning is currently only available for floating placement"
    );
    assert_eq!(bail.hint(), FLOAT_HINT);
}

#[test]
fn accepted_placements_resolve_their_alignment() {
    let cases = [
        (HAlignment::Left, true, FixedAlignment::Start),
        (HAlignment::Left, false, FixedAlignment::Start),
        (HAlignment::Right, false, FixedAlignment::End),
        (HAlignment::Start, true, FixedAlignment::Start),
        (HAlignment::Start, false, FixedAlignment::End),
        (HAlignment::End, false, FixedAlignment::Start),
    ];
    for (x, left_to_right, side) in cases {
        let alignment = Smart::Custom(Alignment { x: Some(x), y: None });
        let elem = PlaceElem { alignment, left_to_right, ..place(3) };
        let output = run(vec![], &[Element::Place(elem)]).unwrap();
        match output[0] {
            Child::Placed(placed) => {
                assert_eq!(placed.align_x, side);
                assert_eq!(placed.align_y, Smart::Custom(None));
                assert!(placed.float && placed.wrap && !placed.wrap_active);
                assert_eq!(placed.clearance, Abs::pt(6));
                assert_eq!(placed.location(), Location(3));
            }
            other => panic!("{:?}", other),
        }
    }
}

#[test]
fn floats_at_the_edges_and_in_the_parent_are_accepted() {
    for y in [VAlignment::Top, VAlignment::Bottom] {
        let alignment = Smart::Custom(Alignment { x: None, y: Some(y) });
        let scope = PlacementScope::Parent;
        let elem = PlaceElem { wrap: false, alignment, scope, ..place(1) };
        let output = run(vec![], &[Element::Place(elem)]).unwrap();
        assert!(matches!(
            output[0],
            Child::Placed(placed)
                if placed.align_y == Smart::Custom(Some(y.fix()))
                    && placed.align_x == FixedAlignment::Start
        ));
    }
    let elem = PlaceElem { wrap: false, alignment: Smart::Auto, ..place(1) };
    let output = run(vec![], &[Element::Place(elem)]).unwrap();
    assert!(matches!(
        output[0],
        Child::Placed(placed)
            if placed.align_y == Smart::Auto && placed.align_x == FixedAlignment::Center
    ));
}

#[test]
fn paragraph_after_wrap_float_is_deferred() {
    let elements = [
        Element::Place(place(1)),
        Element::Tag(Tag(5)),
        Element::Par(par(2)),
    ];
    let output = run(vec![], &elements).unwrap();
    assert!(matches!(output[0], Child::Placed(placed) if placed.wrap_active));
    assert_eq!(output[1], Child::Tag(Tag(5)));
    let d = deferred(&output[2]);
    assert_eq!(d.elem, par(2));
    assert_eq!(d.locator, Locator(1));
    assert_eq!(d.base, base());
    assert_eq!(d.par_situation, ParSituation::First);
    assert_eq!(d.clearance, Abs::pt(6));
    assert_eq!(d.dropcap, None);
    assert!(!d.continuation);
    assert_eq!(output.len(), 3);
}

#[test]
fn spacing_between_float_and_paragraph_prevents_wrapping() {
    let elements = [Element::Place(place(1)), v(true), Element::Par(par(2))];
    let output = run(vec![Answer::Frames(vec![])], &elements).unwrap();
    assert!(matches!(output[0], Child::Placed(placed) if !placed.wrap_active));
    assert_eq!(output[1], Child::Rel(Rel::absolute(Abs::pt(5)), 1));
    assert_eq!(output.len(), 4);
}

#[test]
fn drop_cap_defers_as_many_continuations_as_lines() {
    let cap = PlaceElem { dropcap: Some(2), ..place(1) };
    let mut elements = vec![Element::Place(cap)];
    elements.extend((0..5).map(|i| Element::Par(par(10 + i))));
    let answers = vec![Answer::Frames(vec![]), Answer::Frames(vec![])];
    let output = run(answers, &elements).unwrap();
    assert_eq!(deferred(&output[1]).dropcap, Some(2));
    assert!(!deferred(&output[1]).continuation);
    for i in 2..4 {
        let d = deferred(&output[i]);
        assert!(d.continuation);
        assert_eq!(d.dropcap, None);
        assert_eq!(d.clearance, Abs::zero());
        assert_eq!(d.par_situation, ParSituation::Consecutive);
        assert_eq!(d.locator, Locator(i));
    }
    assert!(matches!(output[4], Child::Rel(_, 4)));
    assert_eq!(output.len(), 8);
}

#[test]
fn general_float_defers_a_bounded_number_of_continuations() {
    let mut elements = vec![Element::Place(place(1))];
    elements.extend((0..12).map(|i| Element::Par(par(10 + i))));
    let answers = (0..12).map(|_| Answer::Frames(vec![])).collect();
    let output = run(answers, &elements).unwrap();
    let continuations =
        output.iter().filter(|c| matches!(c, Child::Deferred(d) if d.continuation)).count();
    assert_eq!(continuations, GENERAL_WRAP_CONTINUATION_PARS);
    assert_eq!(continuations, 8);
}

#[test]
fn other_elements_end_a_run() {
    let openers = [Element::Place(place(1)), Element::Par(par(2))];
    let breakers = [
        v(false),
        Element::Block(block(3)),
        Element::Flush,
        Element::Colbreak(true),
    ];
    for breaker in breakers {
        let elements = [openers[0], openers[1], breaker, Element::Par(par(4))];
        let output = run(vec![Answer::Frames(vec![])], &elements).unwrap();
        assert!(!deferred(&output[1]).continuation);
        assert_eq!(output.iter().filter(|c| matches!(c, Child::Deferred(_))).count(), 1);
    }
    // Tags and ignored elements do not.
    let elements = [openers[0], openers[1], Element::Tag(Tag(0)), Element::Par(par(4))];
    let output = run(vec![], &elements).unwrap();
    assert!(deferred(&output[3]).continuation);
    let elements = [openers[0], openers[1], Element::Other(0), Element::Par(par(4))];
    let output = run(vec![], &elements).unwrap();
    assert!(deferred(&output[2]).continuation);
}

#[test]
fn second_float_opens_its_own_run() {
    let elements = [
        Element::Place(place(1)),
        Element::Par(par(2)),
        Element::Place(place(3)),
        Element::Par(par(4)),
    ];
    let output = run(vec![], &elements).unwrap();
    assert!(!deferred(&output[1]).continuation);
    assert!(!deferred(&output[3]).continuation);
    assert!(matches!(output[2], Child::Placed(placed) if placed.wrap_active));
}

#[test]
fn locations_do_not_depend_on_deferral() {
    let with_float = [
        Element::Place(place(1)),
        Element::Par(par(2)),
        Element::Block(block(3)),
        Element::Par(par(4)),
    ];
    let plain = PlaceElem {
        wrap: false,
        alignment: Smart::Auto,
        ..place(1)
    };
    let without = [Element::Place(plain), with_float[1], with_float[2], with_float[3]];
    let last = |answers: Vec<Answer>, elements: &[Element]| match run(answers, elements) {
        Err(SourceError::Unanswered(Request::Par { elem, locator, .. })) => (elem.id, locator),
        other => panic!("{:?}", other),
    };
    assert_eq!(last(vec![], &with_float), (4, Locator(3)));
    assert_eq!(last(vec![Answer::Frames(vec![])], &without), (4, Locator(3)));
    assert_eq!(last(vec![], &without), (2, Locator(1)));
}

#[test]
fn tags_keep_their_order() {
    let elements = [
        Element::Tag(Tag(1)),
        Element::Place(place(1)),
        Element::Tag(Tag(2)),
        Element::Par(par(2)),
        Element::Tag(Tag(3)),
        Element::Block(block(3)),
        Element::Tag(Tag(4)),
    ];
    let output = run(vec![], &elements).unwrap();
    let tags: Vec<u64> = output
        .iter()
        .filter_map(|c| match c {
            Child::Tag(tag) => Some(tag.0),
            _ => None,
        })
        .collect();
    assert_eq!(tags, vec![1, 2, 3, 4]);
}

#[test]
fn blocks_are_breakable_unless_said_otherwise() {
    let output = run(vec![], &[Element::Block(block(3))]).unwrap();
    assert_eq!(output[0], Child::Rel(Rel::absolute(Abs::pt(12)), 4));
    assert!(matches!(
        output[1],
        Child::Multi(multi) if multi.alone && multi.elem == 3 && multi.locator == Locator(0)
    ));
    assert_eq!(output[2], Child::Rel(Rel::absolute(Abs::pt(3)), 3));

    let elem = BlockElem {
        breakable: false,
        sticky: true,
        above: Smart::Custom(Spacing::Fr(Fr(2))),
        ..block(3)
    };
    let output = run(vec![], &[Element::Block(elem), Element::Flush]).unwrap();
    assert_eq!(output[0], Child::Fr(Fr(2), 2));
    assert!(matches!(
        output[1],
        Child::Single(single) if !single.alone && single.sticky && single.fr.is_none()
    ));
}

#[test]
fn fractional_block_is_not_broken() {
    let elem = BlockElem { height: Sizing::Fr(Fr(7)), ..block(3) };
    let output = run(vec![], &[Element::Block(elem)]).unwrap();
    assert!(matches!(output[1], Child::Single(single) if single.fr == Some(Fr(7))));
}

#[test]
fn explicit_spacing_is_strong_unless_weak() {
    let fr = Element::V(VElem { amount: Spacing::Fr(Fr(3)), weak: true });
    let output = run(vec![], &[v(false), v(true), fr]).unwrap();
    assert_eq!(
        output,
        vec![
            Child::Rel(Rel::absolute(Abs::pt(5)), 0),
            Child::Rel(Rel::absolute(Abs::pt(5)), 1),
            Child::Fr(Fr(3), 1),
        ]
    );
}

#[test]
fn paragraphs_know_where_they_stand() {
    let situation = |answers: usize, elements: &[Element]| {
        let answers = (0..answers).map(|_| Answer::Frames(vec![])).collect();
        match run(answers, elements) {
            Err(SourceError::Unanswered(Request::Par { situation, .. })) => situation,
            other => panic!("{:?}", other),
        }
    };
    let par = Element::Par(par(1));
    assert_eq!(situation(0, &[par]), ParSituation::First);
    assert_eq!(situation(1, &[par, par]), ParSituation::Consecutive);
    assert_eq!(situation(0, &[Element::Block(block(1)), par]), ParSituation::Other);
    assert_eq!(situation(1, &[par, Element::Colbreak(false), par]), ParSituation::First);
}

#[test]
fn inline_children_become_lines_between_tags() {
    let elements = [
        Element::Tag(Tag(1)),
        Element::Tag(Tag(2)),
        Element::Other(0),
        Element::Tag(Tag(3)),
        Element::Other(1),
        Element::Tag(Tag(4)),
    ];
    let mut engine = Engine::new(vec![]);
    let error = collect(&mut engine, &elements, base(), true, FlowMode::Inline).unwrap_err();
    assert_eq!(
        error,
        SourceError::Unanswered(Request::Inline { start: 2, end: 5, base: base(), expand: true })
    );

    let inline = InlineStyle { leading: Abs::pt(2), style: style(0, 0) };
    let lines = vec![frame(1, 10), frame(2, 10)];
    let mut engine = Engine::new(vec![Answer::Inline(lines, inline)]);
    let output = collect(&mut engine, &elements, base(), true, FlowMode::Inline).unwrap();
    assert_eq!(output.len(), 6);
    assert_eq!(output[0], Child::Tag(Tag(1)));
    assert_eq!(output[1], Child::Tag(Tag(2)));
    assert!(matches!(output[2], Child::Line(line) if line.frame == frame(1, 10)));
    assert_eq!(output[3], Child::Rel(Rel::absolute(Abs::pt(2)), 5));
    assert!(matches!(output[4], Child::Line(line) if line.frame == frame(2, 10)));
    assert_eq!(output[5], Child::Tag(Tag(4)));
}

#[test]
fn inline_children_may_all_be_tags() {
    let elements = [Element::Tag(Tag(1)), Element::Tag(Tag(2))];
    let mut engine = Engine::new(vec![]);
    let error = collect(&mut engine, &elements, base(), true, FlowMode::Inline).unwrap_err();
    assert_eq!(
        error,
        SourceError::Unanswered(Request::Inline { start: 2, end: 2, base: base(), expand: true })
    );
}

#[test]
fn needs_group_lines_against_widows_and_orphans() {
    let needs = |heights: &[i64], orphan, widow| {
        let lines = heights.iter().map(|h| frame(0, *h)).collect();
        build_line_children(&lines, Abs::pt(4), style(orphan, widow))
            .iter()
            .map(|line| line.need)
            .collect::<Vec<_>>()
    };
    let pts = |values: &[i64]| values.iter().map(|v| Abs::pt(*v)).collect::<Vec<_>>();
    assert_eq!(needs(&[10, 11, 12], 0, 0), pts(&[10, 11, 12]));
    assert_eq!(needs(&[10, 11, 12], 1, 0), pts(&[25, 11, 12]));
    // Three lines stay together if both are prevented.
    assert_eq!(needs(&[10, 11, 12], 1, 1), pts(&[41, 11, 12]));
    assert_eq!(needs(&[10, 11, 12, 13], 1, 1), pts(&[25, 11, 29, 13]));
    assert_eq!(needs(&[10, 11], 1, 1), pts(&[25, 11]));
    assert_eq!(needs(&[10], 1, 1), pts(&[10]));
    assert_eq!(needs(&[], 1, 1), pts(&[]));
}

#[test]
fn empty_neighbours_do_not_group_lines() {
    let mut blank = frame(0, 11);
    blank.content = Content::Empty;
    let lines = vec![frame(0, 10), blank, frame(0, 12), frame(0, 13)];
    let children = build_line_children(&lines, Abs::pt(4), style(1, 1));
    assert_eq!(children[0].need, Abs::pt(10));
    assert_eq!(children[2].need, Abs::pt(29));
    let lines = vec![frame(0, 10), frame(0, 11), blank, frame(0, 13)];
    let children = build_line_children(&lines, Abs::pt(4), style(1, 1));
    assert_eq!(children[0].need, Abs::pt(25));
    assert_eq!(children[2].need, Abs::pt(11));
}

#[test]
fn further_answers_change_nothing() {
    let elements = [Element::Par(par(1)), Element::Flush];
    let short = run(vec![Answer::Frames(vec![frame(1, 10)])], &elements);
    let long = run(
        vec![Answer::Frames(vec![frame(1, 10)]), Answer::Width(Abs(3)), Answer::Failure(1)],
        &elements,
    );
    assert_eq!(short, long);
}

/// Where the paragraph that is asked about stands.
fn asked(result: Result<(), SourceError>) -> (u64, Locator, ParSituation) {
    match result {
        Err(SourceError::Unanswered(Request::Par { elem, locator, situation, .. })) => {
            (elem.id, locator, situation)
        }
        other => panic!("{:?}", other),
    }
}

#[test]
fn refused_placement_leaves_what_is_collected() {
    let elements = [Element::Par(par(1))];
    let bad = PlaceElem { float: false, ..place(9) };
    let lines = || vec![Answer::Frames(vec![frame(1, 10)])];
    let mut collector = Collector::new(&elements, base(), false);
    let refused = collector.place(bad);
    assert_eq!(refused, Err(SourceError::Bail(9, Bail::WrapWithoutFloat)));
    let output = collector.run(&mut Engine::new(lines()), FlowMode::Root).unwrap();
    assert_eq!(output, run(lines(), &elements).unwrap());

    // It is not located, and it ends a run of wrapping paragraphs.
    let mut engine = Engine::new(vec![]);
    let mut collector = Collector::new(&[], base(), false);
    collector.place(place(2)).unwrap();
    collector.par(&mut engine, par(3)).unwrap();
    assert!(collector.place(bad).is_err());
    let asked = asked(collector.par(&mut engine, par(4)));
    assert_eq!(asked, (4, Locator(2), ParSituation::Consecutive));
}

#[test]
fn refused_paragraph_leaves_what_is_collected() {
    let mut engine = Engine::new(vec![]);
    let mut collector = Collector::new(&[], base(), false);
    let first = asked(collector.par(&mut engine, par(1)));
    assert_eq!(first, (1, Locator(0), ParSituation::First));
    // It is located, but the next paragraph is still the first.
    let second = asked(collector.par(&mut engine, par(2)));
    assert_eq!(second, (2, Locator(1), ParSituation::First));
    // Nothing stands between a float and a paragraph after it.
    collector.place(place(3)).unwrap();
    collector.par(&mut engine, par(4)).unwrap();
}
