use flow::child::{
    Child, DeferredParChild, LineChild, MultiChild, PlacedChild, SingleChild, WrapSpill,
};
use flow::distribute::distribute;
use flow::element::{LineStyle, Location, Locator, ParElem, ParSituation, PlacementScope};
use flow::engine::{
    Answer, Engine, Insertions, Request, SourceError, Stop, Verdict,
};
use flow::frame::{Content, Frame, FrameItem, RegionFrame, Scale, Tag};
use flow::geom::{Abs, Axes, FixedAlignment, Fr, Ratio, Rel, Smart};
use flow::region::Regions;
use flow::work::{Composer, Work};

fn align() -> Axes<FixedAlignment> {
    Axes { x: FixedAlignment::Start, y: FixedAlignment::Start }
}

fn frame(id: u64, height: i64) -> Frame {
    Frame {
        id,
        size: Axes { x: Abs(100), y: Abs(height) },
        baseline: None,
        content: Content::Visible,
        hint: '\0',
        scale: None,
        parent: None,
    }
}

fn line(id: u64, height: i64) -> Child {
    Child::Line(LineChild { frame: frame(id, height), align: align(), need: Abs(height) })
}

fn rel(amount: i64, weakness: u8) -> Child {
    Child::Rel(Rel::absolute(Abs(amount)), weakness)
}

fn insertions(floats: usize) -> Insertions {
    Insertions { floats, footnotes: 0, footnote_spill: false, record: 0 }
}

/// The flow goes on after an insertion.
fn go() -> Answer {
    Answer::Inserted(insertions(0), Verdict::Proceed)
}

fn regions(y: i64) -> Regions {
    Regions {
        size: Axes { x: Abs(300), y: Abs(y) },
        expand: Axes { x: true, y: true },
        full: Abs(y),
        backlog: vec![],
        last: None,
    }
}

fn with_next(y: i64, next: i64) -> Regions {
    Regions { backlog: vec![Abs(next)], ..regions(y) }
}

fn start(children: &[Child], answers: Vec<Answer>) -> Composer<'_> {
    Composer { work: Work::new(children), engine: Engine::new(answers) }
}

/// Where the frames are drawn, by their handles.
fn positions(region: &RegionFrame) -> Vec<(u64, i64, i64)> {
    region
        .items
        .iter()
        .filter_map(|(pos, item)| match item {
            FrameItem::Frame(frame) => Some((frame.id, pos.x.0, pos.y.0)),
            FrameItem::Tag(_) => None,
        })
        .collect()
}

fn tags(region: &RegionFrame) -> Vec<(u64, i64)> {
    region
        .items
        .iter()
        .filter_map(|(pos, item)| match item {
            FrameItem::Tag(tag) => Some((tag.0, pos.y.0)),
            FrameItem::Frame(_) => None,
        })
        .collect()
}

fn laid_out(children: &[Child], answers: Vec<Answer>, regions: &Regions) -> RegionFrame {
    let (composer, result) = distribute(start(children, answers), regions);
    assert!(composer.work.done());
    result.unwrap()
}

#[test]
fn lines_stack_with_spacing() {
    let children = [line(1, 10), rel(4, 5), line(2, 12), rel(9, 4)];
    let region = laid_out(&children, vec![go(), go()], &regions(100));
    assert_eq!(positions(&region), vec![(1, 0, 0), (2, 0, 14)]);
    assert_eq!(region.size, Axes { x: Abs(300), y: Abs(100) });
}

#[test]
fn region_shrinks_to_its_content_unless_expanded() {
    let children = [line(1, 10), rel(4, 0), line(2, 12)];
    let regions = Regions { expand: Axes { x: false, y: false }, ..regions(100) };
    let region = laid_out(&children, vec![go(), go(), Answer::Width(Abs(40))], &regions);
    assert_eq!(region.size, Axes { x: Abs(100), y: Abs(26) });
    let region = laid_out(&children, vec![go(), go(), Answer::Width(Abs(140))], &regions);
    assert_eq!(region.size, Axes { x: Abs(140), y: Abs(26) });
    let region = laid_out(&children, vec![go(), go(), Answer::Width(Abs(999))], &regions);
    assert_eq!(region.size, Axes { x: Abs(300), y: Abs(26) });
}

#[test]
fn weak_spacing_collapses() {
    // None at the start, the larger of equal ones in between, none at the end.
    let children =
        [rel(7, 3), line(1, 10), rel(4, 3), rel(6, 3), rel(5, 3), line(2, 10), rel(3, 3)];
    let region = laid_out(&children, vec![go(), go()], &regions(100));
    assert_eq!(positions(&region), vec![(1, 0, 0), (2, 0, 16)]);
}

#[test]
fn stronger_spacing_wins_whatever_its_size() {
    let children = [line(1, 10), rel(9, 4), rel(2, 3), line(2, 10)];
    let region = laid_out(&children, vec![go(), go()], &regions(100));
    assert_eq!(positions(&region)[1], (2, 0, 12));
    let children = [line(1, 10), rel(2, 3), rel(9, 4), line(2, 10)];
    let region = laid_out(&children, vec![go(), go()], &regions(100));
    assert_eq!(positions(&region)[1], (2, 0, 12));
}

#[test]
fn strong_spacing_never_collapses() {
    let children = [rel(7, 0), line(1, 10), rel(4, 3), rel(6, 0), line(2, 10)];
    let region = laid_out(&children, vec![go(), go()], &regions(100));
    assert_eq!(positions(&region), vec![(1, 0, 7), (2, 0, 27)]);
}

#[test]
fn relative_spacing_refers_to_the_full_height() {
    let half = Child::Rel(Rel { rel: Ratio(500_000), abs: Abs(1) }, 0);
    let children = [half, line(1, 10)];
    let regions = Regions { full: Abs(60), ..regions(100) };
    let region = laid_out(&children, vec![go()], &regions);
    assert_eq!(positions(&region), vec![(1, 0, 31)]);
}

#[test]
fn fractions_share_the_remaining_space() {
    let children =
        [line(1, 10), Child::Fr(Fr(1), 0), line(2, 10), Child::Fr(Fr(2), 0), line(3, 10)];
    let region = laid_out(&children, vec![go(), go(), go()], &regions(100));
    // 70 units are left: 23 and 46 after rounding down.
    assert_eq!(positions(&region), vec![(1, 0, 0), (2, 0, 33), (3, 0, 89)]);
}

#[test]
fn fractional_spacing_destructs_weak_spacing() {
    let children = [line(1, 10), rel(4, 3), Child::Fr(Fr(1), 0), rel(4, 3), line(2, 10)];
    let region = laid_out(&children, vec![go(), go()], &regions(100));
    assert_eq!(positions(&region), vec![(1, 0, 0), (2, 0, 90)]);
}

#[test]
fn weak_fractional_spacing_collapses() {
    // At the start and at the end.
    let children = [Child::Fr(Fr(1), 1), line(1, 10), Child::Fr(Fr(1), 1)];
    let region = laid_out(&children, vec![go()], &regions(100));
    assert_eq!(positions(&region), vec![(1, 0, 0)]);
    // With other weak fractional spacing: the larger one stays.
    let children = [
        line(1, 10),
        Child::Fr(Fr(1), 1),
        Child::Fr(Fr(3), 1),
        line(2, 10),
        Child::Fr(Fr(1), 0),
        line(3, 10),
    ];
    let region = laid_out(&children, vec![go(), go(), go()], &regions(70));
    assert_eq!(positions(&region), vec![(1, 0, 0), (2, 0, 40), (3, 0, 60)]);
    // Next to strong fractional spacing both stay.
    let children = [line(1, 10), Child::Fr(Fr(1), 0), Child::Fr(Fr(1), 1), line(2, 10)];
    let region = laid_out(&children, vec![go(), go()], &regions(60));
    assert_eq!(positions(&region), vec![(1, 0, 0), (2, 0, 50)]);
}

#[test]
fn fractions_take_nothing_from_an_infinite_region() {
    let children = [line(1, 10), Child::Fr(Fr(1), 0), line(2, 10)];
    let tall = Regions {
        size: Axes { x: Abs(300), y: Abs::inf() },
        expand: Axes { x: true, y: false },
        ..regions(0)
    };
    let region = laid_out(&children, vec![go(), go()], &tall);
    assert_eq!(positions(&region), vec![(1, 0, 0), (2, 0, 10)]);
    assert_eq!(region.size.y, Abs(20));
}

fn single(id: u64, sticky: bool, fr: Option<Fr>) -> Child {
    Child::Single(SingleChild {
        align: Axes { x: FixedAlignment::End, y: FixedAlignment::Start },
        sticky,
        alone: false,
        fr,
        elem: id,
        locator: Locator(0),
    })
}

#[test]
fn fractional_block_is_laid_out_into_its_share() {
    let children = [line(1, 10), single(2, false, Some(Fr(1))), Child::Fr(Fr(2), 0)];
    let probe = Answer::Frame(frame(2, 5));
    let (composer, result) =
        distribute(start(&children, vec![go(), probe, go()]), &regions(100));
    match result {
        Err(Stop::Error(SourceError::Unanswered(Request::Single { region, .. }))) => {
            assert_eq!(region.size, Axes { x: Abs(300), y: Abs(30) });
            assert_eq!(region.expand, Axes { x: true, y: false });
        }
        other => panic!("{:?}", other),
    }
    assert_eq!(composer.engine.next, 3);
    let answers = vec![go(), Answer::Frame(frame(2, 5)), go(), Answer::Frame(frame(3, 30))];
    let region = laid_out(&children, answers, &regions(100));
    assert_eq!(positions(&region), vec![(1, 0, 0), (3, 200, 10)]);
}

#[test]
fn frames_are_aligned_with_a_ruler_that_only_moves_down() {
    let at = |id, y| {
        Child::Line(LineChild {
            frame: frame(id, 10),
            align: Axes { x: FixedAlignment::Center, y },
            need: Abs(10),
        })
    };
    let children = [
        at(1, FixedAlignment::Start),
        at(2, FixedAlignment::Center),
        at(3, FixedAlignment::Start),
        at(4, FixedAlignment::End),
    ];
    let region = laid_out(&children, vec![go(), go(), go(), go()], &regions(100));
    // 60 units are free.
    assert_eq!(
        positions(&region),
        vec![(1, 100, 0), (2, 100, 40), (3, 100, 50), (4, 100, 90)]
    );
}

#[test]
fn baseline_is_that_of_the_first_frame() {
    let mut first = frame(1, 10);
    first.baseline = Some(Abs(8));
    let mut second = frame(2, 10);
    second.baseline = Some(Abs(9));
    let line = |frame| Child::Line(LineChild { frame, align: align(), need: Abs(10) });
    let children = [rel(5, 0), line(first), line(second)];
    let region = laid_out(&children, vec![go(), go()], &regions(100));
    assert_eq!(region.baseline, Some(Abs(13)));
    // A first frame without a baseline leaves it unset.
    let children = [line(frame(3, 10)), line(second)];
    let region = laid_out(&children, vec![go(), go()], &regions(100));
    assert_eq!(region.baseline, None);
}

#[test]
fn tags_wait_for_the_next_frame() {
    let children = [
        Child::Tag(Tag(1)),
        rel(5, 0),
        Child::Tag(Tag(2)),
        line(1, 10),
        Child::Tag(Tag(3)),
    ];
    let region = laid_out(&children, vec![go()], &regions(100));
    assert_eq!(tags(&region), vec![(1, 5), (2, 5), (3, 15)]);
}

#[test]
fn line_that_does_not_fit_moves_on() {
    let children = [line(1, 60), line(2, 60)];
    let (composer, result) = distribute(start(&children, vec![go()]), &with_next(100, 100));
    assert_eq!(positions(&result.unwrap()), vec![(1, 0, 0)]);
    assert_eq!(composer.work.head, 1);
    assert!(!composer.work.done());
    // Without a next region it overflows.
    let region = laid_out(&children, vec![go(), go()], &regions(100));
    assert_eq!(positions(&region), vec![(1, 0, 0), (2, 0, 60)]);
}

#[test]
fn line_moves_on_to_stay_with_the_lines_after_it() {
    let grouped = Child::Line(LineChild { frame: frame(2, 30), align: align(), need: Abs(70) });
    let children = [line(1, 60), grouped];
    let (composer, result) = distribute(start(&children, vec![go()]), &with_next(100, 80));
    assert_eq!(positions(&result.unwrap()).len(), 1);
    assert_eq!(composer.work.head, 1);
    // Unless the next region is too small for them, too.
    let (composer, result) = distribute(start(&children, vec![go(), go()]), &with_next(100, 60));
    assert_eq!(positions(&result.unwrap()).len(), 2);
    assert_eq!(composer.work.head, 2);
}

#[test]
fn sticky_block_moves_on_with_what_follows() {
    let children = [line(1, 50), single(2, true, None), line(3, 60)];
    let answers = vec![go(), Answer::Frame(frame(2, 20)), go()];
    let (composer, result) = distribute(start(&children, answers), &with_next(100, 100));
    assert_eq!(positions(&result.unwrap()), vec![(1, 0, 0)]);
    assert_eq!(composer.work.head, 1);
}

#[test]
fn sticky_block_stays_where_moving_on_cannot_help() {
    let children = [single(2, true, None), line(3, 90)];
    let answers = vec![Answer::Frame(frame(2, 20)), go()];
    let same = Regions { last: Some(Abs(100)), ..regions(100) };
    let (composer, result) = distribute(start(&children, answers), &same);
    // The region was as high as the next one when the sticky block came.
    assert_eq!(positions(&result.unwrap()), vec![(2, 200, 0)]);
    assert_eq!(composer.work.head, 1);
}

#[test]
fn empty_frame_does_not_end_a_sticky_group() {
    let mut blank = frame(9, 0);
    blank.content = Content::Empty;
    let blank = Child::Line(LineChild { frame: blank, align: align(), need: Abs(0) });
    let children = [line(1, 50), single(2, true, None), blank, line(3, 60)];
    let answers = vec![go(), Answer::Frame(frame(2, 20)), go(), go()];
    let (composer, result) = distribute(start(&children, answers), &with_next(100, 100));
    assert_eq!(positions(&result.unwrap()), vec![(1, 0, 0)]);
    assert_eq!(composer.work.head, 1);
}

#[test]
fn invisible_items_alone_migrate() {
    let mut bare = frame(1, 0);
    bare.size = Axes { x: Abs(0), y: Abs(0) };
    bare.content = Content::Bare;
    let bare = Child::Line(LineChild { frame: bare, align: align(), need: Abs(0) });
    let children = [Child::Tag(Tag(1)), bare, line(2, 200)];
    let (composer, result) = distribute(start(&children, vec![go()]), &with_next(100, 300));
    let region = result.unwrap();
    assert!(region.items.is_empty());
    assert_eq!(composer.work.head, 0);
    assert!(composer.work.tags.is_empty());
}

#[test]
fn forced_break_keeps_invisible_items() {
    let children = [Child::Tag(Tag(1)), Child::Break(false), line(2, 10)];
    let (composer, result) = distribute(start(&children, vec![]), &with_next(100, 100));
    assert_eq!(tags(&result.unwrap()), vec![(1, 0)]);
    assert_eq!(composer.work.head, 2);
}

#[test]
fn weak_break_at_the_top_is_ignored() {
    let children = [Child::Break(true), line(2, 10), Child::Break(true), line(3, 10)];
    let (composer, result) = distribute(start(&children, vec![go()]), &with_next(100, 100));
    assert_eq!(positions(&result.unwrap()), vec![(2, 0, 0)]);
    assert_eq!(composer.work.head, 3);
    // There must be a region to break into.
    let region = laid_out(&children, vec![go(), go()], &regions(100));
    assert_eq!(positions(&region).len(), 2);
}

#[test]
fn flush_waits_for_floats() {
    let children = [line(1, 10), Child::Flush, line(2, 10)];
    let waiting = Answer::Inserted(insertions(1), Verdict::Proceed);
    let (composer, result) = distribute(start(&children, vec![waiting]), &regions(100));
    assert_eq!(positions(&result.unwrap()).len(), 1);
    assert_eq!(composer.work.head, 1);
    assert!(!composer.work.done());
    let region = laid_out(&children, vec![go(), go()], &regions(100));
    assert_eq!(positions(&region).len(), 2);
}

#[test]
fn insertions_decide_how_the_flow_goes_on() {
    let children = [line(1, 10), line(2, 10)];
    let run = |verdict| {
        let answers = vec![go(), Answer::Inserted(insertions(0), verdict)];
        let (composer, result) = distribute(start(&children, answers), &with_next(100, 100));
        (composer.work.head, result)
    };
    let (head, result) = run(Verdict::Finish(false));
    assert_eq!((head, positions(&result.unwrap()).len()), (1, 1));
    let (_, result) = run(Verdict::Relayout(PlacementScope::Parent));
    assert_eq!(result, Err(Stop::Relayout(PlacementScope::Parent)));
    let (_, result) = run(Verdict::Error(7));
    assert_eq!(result, Err(Stop::Error(SourceError::Outside(7))));
}

#[test]
fn footnotes_are_asked_for_with_what_remains() {
    let children = [line(1, 10), line(2, 15)];
    let (_, result) = distribute(start(&children, vec![go()]), &regions(100));
    match result {
        Err(Stop::Error(SourceError::Unanswered(Request::Footnotes {
            regions,
            frame,
            flow_need,
            breakable,
            migratable,
        }))) => {
            assert_eq!(regions.size.y, Abs(90));
            assert_eq!(frame.id, 2);
            assert_eq!(flow_need, Abs(15));
            assert!(!breakable && migratable);
        }
        other => panic!("{:?}", other),
    }
}

fn multi(id: u64) -> Child {
    Child::Multi(MultiChild {
        align: align(),
        sticky: false,
        alone: false,
        elem: id,
        locator: Locator(0),
    })
}

#[test]
fn block_breaks_across_regions() {
    let children = [line(1, 60), multi(2), line(3, 10)];
    let frames = vec![frame(20, 40), frame(21, 30)];
    let answers =
        vec![go(), Answer::Frames(frames.clone()), go(), Answer::Frames(frames), go(), go()];
    let (composer, result) = distribute(start(&children, answers), &with_next(100, 100));
    assert_eq!(positions(&result.unwrap()), vec![(1, 0, 0), (20, 0, 60)]);
    assert_eq!(composer.work.head, 2);
    assert!(composer.work.spill.is_some());
    let (composer, result) = distribute(composer, &regions(100));
    assert_eq!(positions(&result.unwrap()), vec![(21, 0, 0), (3, 0, 30)]);
    assert!(composer.work.done());
}

#[test]
fn block_that_starts_empty_moves_on_as_a_whole() {
    let mut blank = frame(20, 0);
    blank.content = Content::Empty;
    let children = [line(1, 60), multi(2)];
    let answers = vec![go(), Answer::Frames(vec![blank, frame(21, 30)])];
    let (composer, result) = distribute(start(&children, answers), &with_next(100, 100));
    assert_eq!(positions(&result.unwrap()), vec![(1, 0, 0)]);
    assert_eq!(composer.work.head, 1);
    assert!(composer.work.spill.is_none());
}

#[test]
fn full_region_takes_no_block() {
    let children = [line(1, 100), multi(2)];
    let (composer, result) = distribute(start(&children, vec![go()]), &with_next(100, 100));
    assert_eq!(positions(&result.unwrap()).len(), 1);
    assert_eq!(composer.work.head, 1);
}

#[test]
fn block_that_fails_stops_the_flow() {
    let children = [multi(2)];
    let (_, result) = distribute(start(&children, vec![Answer::Failure(3)]), &regions(100));
    assert_eq!(result, Err(Stop::Error(SourceError::Outside(3))));
    let (_, result) = distribute(start(&children, vec![go()]), &regions(100));
    assert_eq!(result, Err(Stop::Error(SourceError::Mismatch)));
}

fn placed(float: bool, wrap: bool, wrap_active: bool) -> PlacedChild {
    PlacedChild {
        align_x: FixedAlignment::End,
        align_y: Smart::Custom(None),
        scope: PlacementScope::Column,
        float,
        wrap,
        wrap_active,
        clearance: Abs(10),
        delta: Axes { x: Rel::absolute(Abs(0)), y: Rel::absolute(Abs(0)) },
        elem: 50,
        dropcap: None,
        locator: Locator(0),
        alignment: Smart::Auto,
        location: Location(8),
    }
}

#[test]
fn placed_child_takes_no_space() {
    let mut shifted = placed(false, false, false);
    shifted.delta = Axes {
        x: Rel { rel: Ratio(100_000), abs: Abs(1) },
        y: Rel { rel: Ratio(0), abs: Abs(-2) },
    };
    let children = [line(1, 10), Child::Placed(shifted), line(2, 10)];
    let answers = vec![go(), Answer::Frame(frame(50, 40)), go(), go()];
    let region = laid_out(&children, answers, &regions(100));
    assert_eq!(positions(&region), vec![(1, 0, 0), (50, 231, 8), (2, 0, 10)]);
}

#[test]
fn placed_child_may_be_aligned_vertically() {
    let mut bottom = placed(false, false, false);
    bottom.align_y = Smart::Custom(Some(FixedAlignment::End));
    let children = [line(1, 10), Child::Placed(bottom)];
    let answers = vec![go(), Answer::Frame(frame(50, 40)), go()];
    let region = laid_out(&children, answers, &regions(100));
    assert_eq!(positions(&region), vec![(1, 0, 0), (50, 200, 60)]);
}

#[test]
fn float_borrows_trailing_weak_spacing() {
    let mut float = placed(true, false, false);
    float.align_y = Smart::Auto;
    let children = [line(1, 10), rel(20, 3), Child::Placed(float), line(2, 10)];
    let (_, result) = distribute(start(&children, vec![go()]), &regions(100));
    match result {
        Err(Stop::Error(SourceError::Unanswered(Request::Float {
            placed, regions, clearance, ..
        }))) => {
            assert_eq!(placed, float);
            assert_eq!(regions.size.y, Abs(90));
            assert!(clearance);
        }
        other => panic!("{:?}", other),
    }
    let region = laid_out(&children, vec![go(), go(), go()], &regions(100));
    assert_eq!(positions(&region), vec![(1, 0, 0), (2, 0, 30)]);
}

#[test]
fn wrap_float_without_paragraph_reserves_its_height() {
    let children = [Child::Placed(placed(true, true, false)), line(2, 10)];
    let answers = vec![Answer::Frame(frame(50, 40)), go(), go()];
    let region = laid_out(&children, answers, &regions(100));
    assert_eq!(positions(&region), vec![(50, 200, 0), (2, 0, 40)]);
    assert!(matches!(
        region.items[0].1,
        FrameItem::Frame(frame) if frame.parent == Some(Location(8))
    ));
}

fn par() -> ParElem {
    ParElem {
        id: 60,
        spacing: Abs(12),
        leading: Abs(4),
        text_size: Abs(9),
        style: LineStyle { align: align(), orphan: Ratio(0), widow: Ratio(0) },
    }
}

fn deferred(continuation: bool, dropcap: Option<usize>, height: i64) -> Child {
    Child::Deferred(DeferredParChild {
        elem: par(),
        locator: Locator(1),
        base: Axes { x: Abs(300), y: Abs(height) },
        expand: false,
        par_situation: ParSituation::First,
        clearance: if continuation { Abs(0) } else { Abs(10) },
        dropcap,
        continuation,
    })
}

fn lines(from: u64, n: u64) -> Answer {
    Answer::Frames((from..from + n).map(|id| frame(id, 10)).collect())
}

fn go_on(n: usize) -> Vec<Answer> {
    (0..n).map(|_| go()).collect()
}

fn answers(parts: Vec<Vec<Answer>>) -> Vec<Answer> {
    parts.into_iter().flatten().collect()
}

#[test]
fn paragraph_wraps_beside_its_float() {
    let children =
        [Child::Placed(placed(true, true, true)), deferred(false, None, 200), line(2, 10)];
    let tape = answers(vec![
        vec![Answer::Frame(frame(50, 40)), go(), lines(90, 1)],
    ]);
    let (_, result) = distribute(start(&children, tape), &regions(200));
    let profile = match result {
        Err(Stop::Error(SourceError::Unanswered(Request::Par { profile, base, .. }))) => {
            assert_eq!(base, Axes { x: Abs(300), y: Abs(200) });
            profile.unwrap()
        }
        other => panic!("{:?}", other),
    };
    // The band is as high as the float with its clearance: 50 units, lines come every 14.
    assert_eq!(profile.width(), Abs(300));
    for k in 0..4 {
        assert_eq!(profile.at(k), (Abs(0), Abs(190)));
    }
    assert_eq!(profile.at(4), (Abs(0), Abs(300)));

    // Two lines: 24 units and 12 units of spacing. The gap clears the other 14 units.
    let tape = answers(vec![
        vec![Answer::Frame(frame(50, 40)), go(), lines(90, 1), lines(61, 2)],
        go_on(3),
    ]);
    let region = laid_out(&children, tape, &regions(200));
    assert_eq!(
        positions(&region),
        vec![(50, 200, 0), (61, 0, 0), (62, 0, 14), (2, 0, 50)]
    );

    // Five lines: 66 units and 12 units of spacing. No gap.
    let tape = answers(vec![
        vec![Answer::Frame(frame(50, 40)), go(), lines(90, 1), lines(61, 5)],
        go_on(6),
    ]);
    let region = laid_out(&children, tape, &regions(200));
    assert_eq!(positions(&region)[6], (2, 0, 78));
}

#[test]
fn float_that_does_not_fit_is_not_wrapped() {
    let children = [
        line(1, 160),
        Child::Placed(placed(true, true, true)),
        deferred(false, None, 200),
    ];
    // 40 units remain, the band needs 50: the paragraph is asked for at full width, below.
    let tape = answers(vec![
        vec![go(), Answer::Frame(frame(50, 20)), go(), lines(61, 1)],
        go_on(1),
    ]);
    let (composer, result) = distribute(start(&children, tape), &regions(189));
    assert_eq!(
        positions(&result.unwrap()),
        vec![(1, 0, 0), (50, 200, 160), (61, 0, 192)]
    );
    assert_eq!(composer.engine.next, 5);
    assert!(composer.work.done());
}

#[test]
fn float_laid_out_for_another_height_is_not_wrapped() {
    let children = [Child::Placed(placed(true, true, true)), deferred(false, None, 555)];
    let tape = answers(vec![
        vec![Answer::Frame(frame(50, 20)), go(), lines(61, 1)],
        go_on(1),
    ]);
    let region = laid_out(&children, tape, &regions(200));
    assert_eq!(positions(&region), vec![(50, 200, 0), (61, 0, 32)]);
}

#[test]
fn uneven_lines_are_not_wrapped() {
    let children = [Child::Placed(placed(true, true, true)), deferred(false, None, 200)];
    let uneven = Answer::Frames(vec![frame(61, 10), frame(62, 50_000)]);
    let tape = answers(vec![
        vec![Answer::Frame(frame(50, 20)), go(), lines(90, 1), uneven, lines(63, 1)],
        go_on(1),
    ]);
    let region = laid_out(&children, tape, &regions(200));
    assert_eq!(positions(&region), vec![(50, 200, 0), (63, 0, 32)]);
}

#[test]
fn line_height_falls_back_to_text_size() {
    let children = [Child::Placed(placed(true, true, true)), deferred(false, None, 200)];
    let flat = Answer::Frames(vec![frame(90, 0)]);
    let tape = vec![Answer::Frame(frame(50, 20)), go(), flat];
    let (_, result) = distribute(start(&children, tape), &regions(200));
    match result {
        Err(Stop::Error(SourceError::Unanswered(Request::Par { profile, .. }))) => {
            // The band is 30 units high, lines come every 13.
            let profile = profile.unwrap();
            assert_eq!(profile.at(2), (Abs(0), Abs(190)));
            assert_eq!(profile.at(3), (Abs(0), Abs(300)));
        }
        other => panic!("{:?}", other),
    }
}

#[test]
fn deferred_paragraph_without_float_is_uniform() {
    let children = [line(1, 10), deferred(true, None, 200), line(2, 10)];
    let tape = answers(vec![vec![go(), lines(61, 2)], go_on(3)]);
    let region = laid_out(&children, tape, &regions(200));
    assert_eq!(
        positions(&region),
        vec![(1, 0, 0), (61, 0, 22), (62, 0, 36), (2, 0, 58)]
    );
}

#[test]
fn needless_deferral_paginates_alike() {
    let spread = [line(1, 10), rel(12, 4), line(61, 10), rel(4, 5), line(62, 10), rel(12, 4)];
    let children = [line(1, 10), deferred(true, None, 200)];
    for height in [200, 45, 30] {
        let (a, first) = distribute(
            start(&children, answers(vec![vec![go(), lines(61, 2)], go_on(2)])),
            &with_next(height, 500),
        );
        let (b, second) = distribute(start(&spread, go_on(3)), &with_next(height, 500));
        assert_eq!(positions(&first.unwrap()), positions(&second.unwrap()));
        assert_eq!(a.work.done(), b.work.done());
    }
}

#[test]
fn lines_that_do_not_fit_are_carried_on() {
    let children = [line(1, 10), deferred(true, None, 200), line(2, 10)];
    let tape = answers(vec![vec![go(), lines(61, 3)], go_on(1), go_on(3)]);
    let (composer, result) = distribute(start(&children, tape), &with_next(40, 100));
    assert_eq!(positions(&result.unwrap()), vec![(1, 0, 0), (61, 0, 22)]);
    assert_eq!(composer.work.head, 2);
    match &composer.work.wrap_spill {
        Some(WrapSpill { lines, leading, spacing }) => {
            let ids: Vec<u64> = lines.iter().map(|line| line.frame.id).collect();
            assert_eq!(ids, vec![62, 63]);
            assert_eq!((*leading, *spacing), (Abs(4), Abs(12)));
            assert_eq!(lines[1].frame.hint, '\n');
        }
        None => panic!(),
    }
    let (composer, result) = distribute(composer, &regions(100));
    assert_eq!(positions(&result.unwrap()), vec![(62, 0, 0), (63, 0, 14), (2, 0, 36)]);
    assert!(composer.work.done());
}

#[test]
fn carried_lines_wait_while_the_region_is_full() {
    let children = [line(1, 10)];
    let line = LineChild { frame: frame(9, 10), align: align(), need: Abs(10) };
    let mut composer = start(&children, vec![]);
    composer.work.wrap_spill =
        Some(WrapSpill { lines: vec![line], leading: Abs(4), spacing: Abs(12) });
    let (composer, result) = distribute(composer, &with_next(0, 100));
    assert!(result.unwrap().items.is_empty());
    assert_eq!(composer.work.wrap_spill.unwrap().lines, vec![line]);
    assert_eq!(composer.work.head, 0);
}

#[test]
fn general_band_continues_into_the_next_paragraph() {
    let children = [
        Child::Placed(placed(true, true, true)),
        deferred(false, None, 200),
        deferred(true, None, 200),
        line(2, 10),
    ];
    // The band is 50 units high. The opener takes 10 of them, so 40 remain, and the gap of the
    // continuation takes 12 of these: 28 remain beside it.
    let first = answers(vec![
        vec![Answer::Frame(frame(50, 40)), go(), lines(90, 1), lines(61, 1)],
        go_on(1),
    ]);
    let (_, result) = distribute(start(&children, first), &regions(200));
    match result {
        Err(Stop::Error(SourceError::Unanswered(Request::Par { profile, .. }))) => {
            let profile = profile.unwrap();
            assert_eq!(profile.at(0), (Abs(0), Abs(190)));
            assert_eq!(profile.at(1), (Abs(0), Abs(190)));
            assert_eq!(profile.at(2), (Abs(0), Abs(300)));
        }
        other => panic!("{:?}", other),
    }
    // One line leaves 18 units, which the next child clears.
    let tape = answers(vec![
        vec![Answer::Frame(frame(50, 40)), go(), lines(90, 1), lines(61, 1)],
        go_on(1),
        vec![lines(71, 1)],
        go_on(2),
    ]);
    let region = laid_out(&children, tape, &regions(200));
    assert_eq!(
        positions(&region),
        vec![(50, 200, 0), (61, 0, 0), (71, 0, 22), (2, 0, 62)]
    );
    // Two lines leave 4 units, which is less than half a line.
    let tape = answers(vec![
        vec![Answer::Frame(frame(50, 40)), go(), lines(90, 1), lines(61, 1)],
        go_on(1),
        vec![lines(71, 2)],
        go_on(3),
    ]);
    let region = laid_out(&children, tape, &regions(200));
    assert_eq!(positions(&region)[4], (2, 0, 58));
}

#[test]
fn continuation_with_uneven_lines_goes_below_the_band() {
    let children = [
        Child::Placed(placed(true, true, true)),
        deferred(false, None, 200),
        deferred(true, None, 200),
    ];
    let uneven = Answer::Frames(vec![frame(71, 50_000)]);
    let tape = answers(vec![
        vec![Answer::Frame(frame(50, 40)), go(), lines(90, 1), lines(61, 1)],
        go_on(1),
        vec![uneven, lines(72, 1)],
        go_on(1),
    ]);
    let region = laid_out(&children, tape, &regions(200));
    // 10 for the opener, 12 of spacing, 28 to clear the band; the spacing before the paragraph
    // collapses with that before the band.
    assert_eq!(positions(&region), vec![(50, 200, 0), (61, 0, 0), (72, 0, 50)]);
}

#[test]
fn tags_pass_a_live_band() {
    let children = [
        Child::Placed(placed(true, true, true)),
        deferred(false, None, 200),
        deferred(true, None, 200),
        Child::Tag(Tag(4)),
        line(2, 10),
    ];
    let tape = answers(vec![
        vec![Answer::Frame(frame(50, 40)), go(), lines(90, 1), lines(61, 1)],
        go_on(1),
        vec![lines(71, 1)],
        go_on(2),
    ]);
    let region = laid_out(&children, tape, &regions(200));
    assert_eq!(positions(&region)[3], (2, 0, 62));
    assert_eq!(tags(&region), vec![(4, 62)]);
}

#[test]
fn drop_cap_registers_on_its_lines() {
    let children = [
        Child::Placed(PlacedChild {
            align_x: FixedAlignment::Start,
            dropcap: Some(3),
            ..placed(true, true, true)
        }),
        deferred(false, Some(3), 200),
        line(2, 10),
    ];
    let mut first = frame(61, 10);
    first.baseline = Some(Abs(8));
    let text = Answer::Frames(vec![first, frame(62, 10), frame(63, 10), frame(64, 10)]);
    // The second family is available, with capitals of two thirds of the text size.
    let fonts = Answer::CapHeights(vec![None, Some(Ratio(666_667)), Some(Ratio(1))]);
    let cap = Frame { size: Axes { x: Abs(20), y: Abs(17) }, ..frame(50, 17) };
    let tape = answers(vec![vec![Answer::Frame(cap), go(), lines(90, 1), fonts]]);
    let (_, result) = distribute(start(&children, tape), &regions(200));
    match result {
        Err(Stop::Error(SourceError::Unanswered(Request::Par { profile, .. }))) => {
            // The cap height is 6 units, so the cap spans 2 * 14 + 6 = 34 units: twice its own
            // height. With the clearance it takes 50 units from each of three lines.
            let profile = profile.unwrap();
            assert_eq!(profile.at(2), (Abs(50), Abs(250)));
            assert_eq!(profile.at(3), (Abs(0), Abs(300)));
        }
        other => panic!("{:?}", other),
    }
    let fonts = Answer::CapHeights(vec![None, Some(Ratio(666_667)), Some(Ratio(1))]);
    let tape = answers(vec![vec![Answer::Frame(cap), go(), lines(90, 1), fonts, text], go_on(5)]);
    let region = laid_out(&children, tape, &regions(200));
    // The cap's top is at 8 - 6 = 2, its bottom at 36: the baseline of the third line.
    assert_eq!(positions(&region)[0], (50, 0, 2));
    match region.items[0].1 {
        FrameItem::Frame(cap) => {
            assert_eq!(cap.size, Axes { x: Abs(40), y: Abs(34) });
            assert_eq!(cap.scale, Some(Scale { num: Abs(34), den: Abs(17) }));
        }
        FrameItem::Tag(_) => panic!(),
    }
    assert_eq!(positions(&region)[5], (2, 0, 64));
}

#[test]
fn drop_cap_without_font_uses_a_typical_ratio() {
    let children = [
        Child::Placed(PlacedChild { dropcap: Some(1), ..placed(true, true, true) }),
        deferred(false, Some(1), 200),
    ];
    let tape = answers(vec![
        vec![
            Answer::Frame(frame(50, 12)),
            go(),
            lines(90, 1),
            Answer::CapHeights(vec![None]),
            lines(61, 1),
        ],
        go_on(1),
    ]);
    let region = laid_out(&children, tape, &regions(200));
    // Seven tenths of 9 units, rounded down.
    assert!(matches!(region.items[0].1, FrameItem::Frame(cap) if cap.size.y == Abs(6)));
    assert_eq!(positions(&region)[0].2, 4);
}

#[test]
fn short_opener_clamps_its_drop_cap() {
    let children = [
        Child::Placed(PlacedChild { dropcap: Some(3), ..placed(true, true, true) }),
        deferred(false, Some(3), 200),
        line(2, 10),
    ];
    let fonts = Answer::CapHeights(vec![Some(Ratio(1_000_000))]);
    let tape = answers(vec![
        vec![Answer::Frame(frame(50, 12)), go(), lines(90, 1), fonts, lines(61, 1)],
        go_on(2),
    ]);
    let region = laid_out(&children, tape, &regions(200));
    // One line: the cap is as high as capitals, and only one pitch is reserved. The line with its
    // spacing takes more.
    assert!(matches!(region.items[0].1, FrameItem::Frame(cap) if cap.size.y == Abs(9)));
    assert_eq!(positions(&region)[2], (2, 0, 22));
}

#[test]
fn drop_cap_band_continues_past_a_short_opener() {
    let children = [
        Child::Placed(PlacedChild { dropcap: Some(3), ..placed(true, true, true) }),
        deferred(false, Some(3), 200),
        deferred(true, None, 200),
    ];
    let fonts = || Answer::CapHeights(vec![Some(Ratio(1_000_000))]);
    let tape = answers(vec![
        vec![Answer::Frame(frame(50, 12)), go(), lines(90, 1), fonts(), lines(61, 1)],
        go_on(1),
    ]);
    let (_, result) = distribute(start(&children, tape), &regions(200));
    match result {
        Err(Stop::Error(SourceError::Unanswered(Request::Par { profile, .. }))) => {
            // The scaled cap is wider than the column, so nothing is narrowed.
            assert_eq!(profile.unwrap().at(0), (Abs(0), Abs(300)));
        }
        other => panic!("{:?}", other),
    }
    // With a slimmer cap the lines are narrowed.
    let slim = Frame { size: Axes { x: Abs(12), y: Abs(12) }, ..frame(50, 12) };
    let tape = answers(vec![
        vec![Answer::Frame(slim), go(), lines(90, 1), fonts(), lines(61, 1)],
        go_on(1),
    ]);
    let (_, result) = distribute(start(&children, tape), &regions(200));
    match result {
        Err(Stop::Error(SourceError::Unanswered(Request::Par { profile, .. }))) => {
            // The cap's baseline is at 10 + 2 * 14 = 38. The opener takes 10, the gap 4: 24 units
            // remain, which is two lines. The cap is scaled to 37 units, with a clearance of 10.
            let profile = profile.unwrap();
            assert_eq!(profile.at(0), (Abs(0), Abs(253)));
            assert_eq!(profile.at(1), (Abs(0), Abs(253)));
            assert_eq!(profile.at(2), (Abs(0), Abs(300)));
        }
        other => panic!("{:?}", other),
    }
}

#[test]
fn band_does_not_cross_a_region_break() {
    let children = [
        Child::Placed(placed(true, true, true)),
        deferred(false, None, 60),
        deferred(true, None, 60),
        deferred(true, None, 60),
    ];
    let tape = answers(vec![
        vec![Answer::Frame(frame(50, 40)), go(), lines(90, 1), lines(61, 1)],
        go_on(1),
        vec![lines(71, 5)],
        go_on(3),
    ]);
    let (composer, result) = distribute(start(&children, tape), &with_next(60, 100));
    assert_eq!(positions(&result.unwrap()).len(), 5);
    assert_eq!(composer.work.head, 3);
    // In the next region, the carried lines and the next paragraph are at full width.
    let mut composer = composer;
    for answer in go_on(2) {
        composer.engine.answers.push(answer);
    }
    let (_, result) = distribute(composer, &regions(100));
    match result {
        Err(Stop::Error(SourceError::Unanswered(Request::Par { profile, .. }))) => {
            assert_eq!(profile, None);
        }
        other => panic!("{:?}", other),
    }
}

#[test]
fn answers_can_be_given_one_by_one() {
    let children = [
        Child::Placed(placed(true, true, true)),
        deferred(false, None, 200),
        deferred(true, None, 200),
        Child::Tag(Tag(4)),
        line(2, 10),
    ];
    let tape = || {
        answers(vec![
            vec![Answer::Frame(frame(50, 40)), go(), lines(90, 1), lines(61, 1)],
            go_on(1),
            vec![lines(71, 1)],
            go_on(2),
        ])
    };
    let whole = laid_out(&children, tape(), &regions(200));
    let mut known = vec![];
    let mut asked = 0;
    for answer in tape() {
        let (_, result) = distribute(
            Composer { work: Work::new(&children), engine: Engine::new(known) },
            &regions(200),
        );
        assert!(matches!(result, Err(Stop::Error(SourceError::Unanswered(_)))));
        asked += 1;
        known = tape();
        known.truncate(asked);
        assert_eq!(known.last(), Some(&answer));
    }
    let (composer, result) = distribute(
        Composer { work: Work::new(&children), engine: Engine::new(known) },
        &regions(200),
    );
    assert_eq!(result, Ok(whole));
    assert_eq!(composer.engine.next, asked);
}

#[test]
fn exhausted_work_is_done() {
    let children = [line(1, 10)];
    let composer = start(&children, vec![]);
    assert!(!composer.work.done());
    assert_eq!(composer.work.head(), Some(children[0]));
    assert_eq!(composer.work.peek_next(), None);
    let (composer, result) = distribute(start(&[], vec![]), &regions(100));
    assert!(composer.work.done());
    assert_eq!(result.unwrap().items, vec![]);
}

#[test]
fn tags_are_neither_lost_nor_repeated_between_regions() {
    let children = [
        Child::Tag(Tag(1)),
        line(1, 40),
        Child::Tag(Tag(2)),
        single(2, true, None),
        Child::Tag(Tag(3)),
        line(3, 60),
        Child::Tag(Tag(4)),
    ];
    // The sticky block and the tags around it move on with the line that does not fit.
    let tape = answers(vec![
        vec![go(), Answer::Frame(frame(2, 20)), go()],
        vec![Answer::Frame(frame(2, 20)), go(), go()],
    ]);
    let (composer, result) = distribute(start(&children, tape), &with_next(100, 100));
    let region = result.unwrap();
    assert_eq!(tags(&region), vec![(1, 0)]);
    assert_eq!(composer.work.head, 3);
    assert_eq!(composer.work.tags, vec![Tag(2)]);
    let (composer, result) = distribute(composer, &regions(100));
    let region = result.unwrap();
    assert_eq!(tags(&region), vec![(2, 0), (3, 20), (4, 80)]);
    assert_eq!(positions(&region), vec![(2, 200, 0), (3, 0, 20)]);
    assert!(composer.work.done());
}

#[test]
fn moving_on_undoes_spacing_before_sticky_blocks() {
    let children = [line(1, 40), rel(15, 3), single(2, true, None), rel(9, 3), line(3, 60)];
    let tape = vec![go(), Answer::Frame(frame(2, 20)), go(), Answer::Width(Abs(0))];
    let next = Regions { expand: Axes { x: false, y: false }, ..with_next(100, 100) };
    let (composer, result) = distribute(start(&children, tape), &next);
    // Only the first line is left, without the spacing after it.
    let region = result.unwrap();
    assert_eq!(positions(&region), vec![(1, 0, 0)]);
    assert_eq!(region.size.y, Abs(40));
    assert_eq!(composer.work.head, 2);
}

#[test]
fn frames_do_not_overlap() {
    let at = |id, y| {
        Child::Line(LineChild {
            frame: frame(id, 7),
            align: Axes { x: FixedAlignment::Start, y },
            need: Abs(7),
        })
    };
    let children = [
        at(1, FixedAlignment::Start),
        rel(3, 0),
        at(2, FixedAlignment::Center),
        Child::Fr(Fr(0), 0),
        at(3, FixedAlignment::End),
        at(4, FixedAlignment::Start),
    ];
    let region = laid_out(&children, go_on(4), &regions(50));
    let tops: Vec<i64> = positions(&region).iter().map(|p| p.2).collect();
    assert!(tops.windows(2).all(|pair| pair[0] + 7 <= pair[1]));
    assert_eq!(tops, vec![0, 19, 36, 43]);
}

#[test]
fn nothing_moves_on_in_vain() {
    let children = [line(1, 500), line(2, 10)];
    let same = Regions { last: Some(Abs(100)), ..regions(100) };
    let (composer, result) = distribute(start(&children, vec![go()]), &same);
    // The first line overflows rather than to move on forever; the second one moves on.
    assert_eq!(positions(&result.unwrap()), vec![(1, 0, 0)]);
    assert_eq!(composer.work.head, 1);
}

#[test]
fn carried_lines_are_full_width() {
    let children = [Child::Placed(placed(true, true, true)), deferred(false, None, 50)];
    let tape = vec![Answer::Frame(frame(50, 18)), go(), lines(90, 1)];
    let (_, result) = distribute(start(&children, tape), &with_next(50, 100));
    let profile = match result {
        Err(Stop::Error(SourceError::Unanswered(Request::Par { profile, .. }))) => {
            profile.unwrap()
        }
        other => panic!("{:?}", other),
    };
    let tape = answers(vec![
        vec![Answer::Frame(frame(50, 18)), go(), lines(90, 1), lines(61, 5)],
        go_on(3),
    ]);
    let (composer, result) = distribute(start(&children, tape), &with_next(50, 100));
    assert_eq!(positions(&result.unwrap()).len(), 4);
    let carried = composer.work.wrap_spill.unwrap().lines;
    assert_eq!(carried.len(), 2);
    for (k, line) in (3..5).zip(&carried) {
        assert_eq!(line.frame.id, 61 + k as u64);
        assert_eq!(profile.at(k), (Abs(0), Abs(300)));
    }
    assert_eq!(profile.at(1), (Abs(0), Abs(190)));
}

/// The handles of the lines that are carried on.
fn carried(composer: &Composer) -> Vec<u64> {
    match &composer.work.wrap_spill {
        Some(spill) => spill.lines.iter().map(|line| line.frame.id).collect(),
        None => vec![],
    }
}

/// Whether the lines of a paragraph at full width are asked for next.
fn asks_for_full_width(result: &Result<RegionFrame, Stop>) -> bool {
    matches!(
        result,
        Err(Stop::Error(SourceError::Unanswered(Request::Par { profile: None, .. })))
    )
}

#[test]
fn narrow_line_across_the_bottom_of_the_band_is_not_carried_on() {
    // The band is 50 units high and fits, but the last line beside it would end at 52.
    let children = [Child::Placed(placed(true, true, true)), deferred(false, None, 50)];
    let tape = || vec![Answer::Frame(frame(50, 40)), go(), lines(90, 1), lines(61, 5)];
    let (_, result) = distribute(start(&children, tape()), &with_next(50, 100));
    assert!(asks_for_full_width(&result));
    let tape = answers(vec![tape(), vec![lines(71, 5)]]);
    let (composer, result) = distribute(start(&children, tape), &with_next(50, 100));
    assert_eq!(positions(&result.unwrap()), vec![(50, 200, 0)]);
    assert_eq!(carried(&composer), vec![71, 72, 73, 74, 75]);

    // With three lines, all stay beside the float.
    let tape = answers(vec![
        vec![Answer::Frame(frame(50, 40)), go(), lines(90, 1), lines(61, 3)],
        go_on(3),
    ]);
    let region = laid_out(&children, tape, &with_next(50, 100));
    assert_eq!(
        positions(&region),
        vec![(50, 200, 0), (61, 0, 0), (62, 0, 14), (63, 0, 28)]
    );
}

#[test]
fn narrow_line_below_the_spacing_is_not_carried_on() {
    // The band is 50 units high and fits exactly, but 12 units of spacing leave 38.
    let children = [
        line(1, 50),
        Child::Placed(placed(true, true, true)),
        deferred(false, None, 100),
    ];
    let high = |id: u64| Answer::Frames(vec![frame(id, 45)]);
    let tape = || vec![go(), Answer::Frame(frame(50, 40)), go(), high(90), high(61)];
    let (_, result) = distribute(start(&children, tape()), &with_next(100, 100));
    assert!(asks_for_full_width(&result));
    let tape = answers(vec![tape(), vec![high(71)]]);
    let (composer, result) = distribute(start(&children, tape), &with_next(100, 100));
    assert_eq!(positions(&result.unwrap()), vec![(1, 0, 0), (50, 200, 50)]);
    assert_eq!(carried(&composer), vec![71]);
}

#[test]
fn grouped_narrow_lines_are_not_carried_on() {
    // The band is 30 units high: three of four lines are beside it. The third one fits, but not
    // together with the last one.
    let grouped = match deferred(false, None, 40) {
        Child::Deferred(d) => {
            let style = LineStyle { align: align(), orphan: Ratio(0), widow: Ratio(1) };
            Child::Deferred(DeferredParChild { elem: ParElem { style, ..d.elem }, ..d })
        }
        other => other,
    };
    let children = [Child::Placed(placed(true, true, true)), grouped];
    let tape = || vec![Answer::Frame(frame(50, 20)), go(), lines(90, 1), lines(61, 4)];
    let (_, result) = distribute(start(&children, tape()), &with_next(40, 100));
    assert!(asks_for_full_width(&result));
    // Where no region follows, nothing is carried on.
    let tape = answers(vec![tape(), go_on(4)]);
    let region = laid_out(&children, tape, &regions(40));
    assert_eq!(positions(&region).len(), 5);
}

#[test]
fn narrow_line_of_a_continuation_is_not_carried_on() {
    // 22 units remain below the gap of the continuation, of which two lines beside the band would
    // take 24.
    let children = [
        line(1, 20),
        Child::Placed(placed(true, true, true)),
        deferred(false, None, 76),
        deferred(true, None, 76),
    ];
    let tape = || {
        vec![
            go(),
            Answer::Frame(frame(50, 40)),
            go(),
            lines(90, 1),
            lines(61, 1),
            go(),
            lines(71, 3),
        ]
    };
    let (_, result) = distribute(start(&children, tape()), &with_next(76, 100));
    assert!(asks_for_full_width(&result));
    let tape = answers(vec![tape(), vec![lines(81, 3)]]);
    let (composer, result) = distribute(start(&children, tape), &with_next(76, 100));
    assert_eq!(
        positions(&result.unwrap()),
        vec![(1, 0, 0), (50, 200, 20), (61, 0, 32)]
    );
    assert_eq!(carried(&composer), vec![81, 82, 83]);
    // One line stays beside the band.
    let tape = answers(vec![
        vec![go(), Answer::Frame(frame(50, 40)), go(), lines(90, 1), lines(61, 1), go()],
        vec![lines(71, 1), go()],
    ]);
    let region = laid_out(&children, tape, &with_next(76, 100));
    assert_eq!(positions(&region)[3], (71, 0, 54));
}

#[test]
fn float_is_level_with_the_first_line() {
    let children = [
        line(1, 10),
        rel(12, 4),
        Child::Placed(placed(true, true, true)),
        deferred(false, None, 200),
    ];
    let tape = answers(vec![
        vec![go(), Answer::Frame(frame(50, 40)), go(), lines(90, 1), lines(61, 1)],
        go_on(1),
    ]);
    let region = laid_out(&children, tape, &regions(200));
    assert_eq!(positions(&region), vec![(1, 0, 0), (50, 200, 22), (61, 0, 22)]);
}

#[test]
fn one_of_many_weak_spacings_is_left() {
    let place = |spacings: &[(i64, u8)]| {
        let mut children = vec![line(1, 10)];
        children.extend(spacings.iter().map(|&(amount, weakness)| rel(amount, weakness)));
        children.push(line(2, 10));
        positions(&laid_out(&children, go_on(2), &regions(100)))[1].2
    };
    // The largest of the least weakness, whatever the order and however often.
    assert_eq!(place(&[(9, 4), (3, 2), (7, 3), (5, 2), (4, 2)]), 15);
    assert_eq!(place(&[(5, 2), (4, 2), (9, 4), (5, 2), (7, 3), (3, 2)]), 15);
    assert_eq!(place(&[(-2, 1), (50, 5)]), 8);
}

#[test]
fn infinite_region_does_not_shrink() {
    let endless = Regions {
        size: Axes { x: Abs(300), y: Abs::inf() },
        expand: Axes { x: true, y: false },
        full: Abs::inf(),
        backlog: vec![],
        last: None,
    };
    let children = [line(1, 1_000), rel(4, 4), line(2, 10), rel(6, 0), line(3, 10)];
    let region = laid_out(&children, go_on(3), &endless);
    assert_eq!(positions(&region), vec![(1, 0, 0), (2, 0, 1_004), (3, 0, 1_020)]);
    assert_eq!(region.size.y, Abs(1_030));
}

#[test]
fn paragraph_without_lines_takes_its_spacing_once() {
    let children = [line(1, 10), deferred(true, None, 200), line(2, 10)];
    let tape = || vec![go(), lines(61, 0), go()];
    let region = laid_out(&children, tape(), &with_next(32, 100));
    assert_eq!(positions(&region), vec![(1, 0, 0), (2, 0, 22)]);
    // What remains has shrunk by the first line and the spacing.
    let (composer, result) = distribute(start(&children, tape()), &with_next(30, 100));
    assert_eq!(positions(&result.unwrap()), vec![(1, 0, 0)]);
    assert_eq!(composer.work.head, 2);
}

#[test]
fn cleared_band_takes_what_is_left_of_it() {
    let children = [
        Child::Placed(placed(true, true, true)),
        deferred(false, None, 60),
        deferred(true, None, 60),
        line(2, 10),
    ];
    let tape = || {
        answers(vec![
            vec![Answer::Frame(frame(50, 40)), go(), lines(90, 1), lines(61, 1)],
            go_on(1),
            vec![lines(71, 1)],
            go_on(2),
        ])
    };
    // 10 for the opener, 12 for the gap, 10 for the continuation, 12 of spacing and 18 to clear
    // the band: nothing is left of 60, and the line moves on.
    let (composer, result) = distribute(start(&children, tape()), &with_next(60, 100));
    assert_eq!(positions(&result.unwrap()).len(), 3);
    assert_eq!(composer.work.head, 3);
}
