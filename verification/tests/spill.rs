use flow::child::{MultiChild, MultiSpill, PlacedChild, SingleChild};
use flow::element::{Alignment, HAlignment, Location, Locator, PlacementScope};
use flow::engine::{Answer, Engine, Request, SourceError};
use flow::frame::{mark_block_end, mark_par_end, Content, Frame};
use flow::geom::{Abs, Axes, FixedAlignment, Rel, Smart};
use flow::region::{Region, Regions};

fn frame(id: u64) -> Frame {
    Frame {
        id,
        size: Axes { x: Abs(10), y: Abs(10) },
        baseline: None,
        content: Content::Visible,
        hint: '\0',
        scale: None,
        parent: None,
    }
}

fn empty(id: u64) -> Frame {
    Frame { content: Content::Empty, ..frame(id) }
}

fn regions(y: i64, backlog: &[i64], last: Option<i64>) -> Regions {
    Regions {
        size: Axes { x: Abs(50), y: Abs(y) },
        expand: Axes { x: true, y: true },
        full: Abs(100),
        backlog: backlog.iter().map(|h| Abs(*h)).collect(),
        last: last.map(Abs),
    }
}

fn multi(alone: bool) -> MultiChild {
    MultiChild {
        align: Axes { x: FixedAlignment::Start, y: FixedAlignment::End },
        sticky: false,
        alone,
        elem: 1,
        locator: Locator(0),
    }
}

fn asked(error: SourceError) -> Regions {
    match error {
        SourceError::Unanswered(Request::Multi { regions, .. }) => regions,
        other => panic!("{:?}", other),
    }
}

#[test]
fn block_expands_vertically_only_if_alone() {
    let mut engine = Engine::new(vec![]);
    let request = asked(multi(false).layout(&mut engine, &regions(30, &[], None)).unwrap_err());
    assert_eq!(request.expand, Axes { x: true, y: false });
    let request = asked(multi(true).layout(&mut engine, &regions(30, &[], None)).unwrap_err());
    assert_eq!(request, regions(30, &[], None));

    let single = SingleChild {
        align: Axes { x: FixedAlignment::Start, y: FixedAlignment::Start },
        sticky: false,
        alone: false,
        fr: None,
        elem: 1,
        locator: Locator(0),
    };
    let region = Region { size: Axes { x: Abs(1), y: Abs(2) }, expand: Axes { x: true, y: true } };
    let error = single.layout(&mut engine, region).unwrap_err();
    assert_eq!(
        error,
        SourceError::Unanswered(Request::Single {
            single,
            region: Region { expand: Axes { x: true, y: false }, ..region },
        })
    );
    let mut engine = Engine::new(vec![Answer::Frame(frame(4))]);
    assert_eq!(single.layout(&mut engine, region), Ok(frame(4)));
}

#[test]
fn single_frame_does_not_spill() {
    let mut engine = Engine::new(vec![Answer::Frames(vec![frame(1)])]);
    let laid_out = multi(true).layout(&mut engine, &regions(30, &[20], Some(40)));
    assert_eq!(laid_out, Ok((frame(1), None)));
}

#[test]
fn further_frames_spill() {
    let mut engine = Engine::new(vec![Answer::Frames(vec![empty(1), frame(2)])]);
    let (first, spill) = multi(true).layout(&mut engine, &regions(30, &[20], Some(40))).unwrap();
    assert_eq!(first, empty(1));
    assert_eq!(
        spill,
        Some(MultiSpill {
            exist_non_empty_frame: true,
            multi: multi(true),
            first: Abs(30),
            full: Abs(100),
            backlog: vec![],
            min_backlog_len: 1,
        })
    );
    assert_eq!(spill.unwrap().align(), multi(true).align);

    let mut engine = Engine::new(vec![Answer::Frames(vec![empty(1), empty(2)])]);
    let (_, spill) = multi(true).layout(&mut engine, &regions(30, &[], None)).unwrap();
    assert!(!spill.unwrap().exist_non_empty_frame);
}

#[test]
fn no_frames_at_all_is_a_mismatch() {
    let mut engine = Engine::new(vec![Answer::Frames(vec![])]);
    let laid_out = multi(true).layout(&mut engine, &regions(30, &[], None));
    assert_eq!(laid_out, Err(SourceError::Mismatch));
}

fn spill(backlog: &[i64], min: usize) -> MultiSpill {
    MultiSpill {
        exist_non_empty_frame: true,
        multi: multi(true),
        first: Abs(30),
        full: Abs(99),
        backlog: backlog.iter().map(|h| Abs(*h)).collect(),
        min_backlog_len: min,
    }
}

#[test]
fn spill_is_laid_out_into_the_same_regions_again() {
    let mut engine = Engine::new(vec![]);
    let error = spill(&[20], 0).layout(&mut engine, &regions(25, &[40], Some(50))).unwrap_err();
    assert_eq!(
        asked(error),
        Regions { full: Abs(99), ..regions(30, &[20, 25, 40], Some(50)) }
    );
}

#[test]
fn repeated_heights_are_dropped_down_to_the_minimum() {
    let pod = |min| {
        let mut engine = Engine::new(vec![]);
        let regions = regions(50, &[50, 50], Some(50));
        asked(spill(&[20], min).layout(&mut engine, &regions).unwrap_err()).backlog
    };
    assert_eq!(pod(0), vec![Abs(20)]);
    assert_eq!(pod(2), vec![Abs(20), Abs(50)]);
    assert_eq!(pod(9), vec![Abs(20), Abs(50), Abs(50), Abs(50)]);
}

#[test]
fn frames_come_out_one_by_one() {
    let frames = vec![frame(1), frame(2), frame(3)];
    let answers = (0..3).map(|_| Answer::Frames(frames.clone())).collect();
    let mut engine = Engine::new(answers);
    let (first, rest) = multi(true).layout(&mut engine, &regions(30, &[20, 25], None)).unwrap();
    let (second, rest) =
        rest.unwrap().layout(&mut engine, &regions(20, &[25], None)).unwrap();
    assert_eq!(rest.as_ref().map(|r| r.backlog.clone()), Some(vec![Abs(20)]));
    assert_eq!(rest.as_ref().map(|r| r.min_backlog_len), Some(2));
    let (third, rest) = rest.unwrap().layout(&mut engine, &regions(25, &[], None)).unwrap();
    assert_eq!((first.id, second.id, third.id), (1, 2, 3));
    assert_eq!(rest, None);
}

#[test]
fn backlog_never_shrinks() {
    let frames = vec![frame(1), frame(2), frame(3), frame(4)];
    let mut engine = Engine::new(vec![Answer::Frames(frames)]);
    let (_, rest) =
        spill(&[], 0).layout(&mut engine, &regions(25, &[40, 41], Some(50))).unwrap();
    let rest = rest.unwrap();
    assert_eq!(rest.min_backlog_len, 3);
    let error = rest.layout(&mut engine, &regions(50, &[50], Some(50))).unwrap_err();
    assert_eq!(asked(error).backlog, vec![Abs(25), Abs(50), Abs(50)]);
}

#[test]
fn missing_frame_is_a_mismatch() {
    let mut engine = Engine::new(vec![Answer::Frames(vec![frame(1)])]);
    let laid_out = spill(&[], 0).layout(&mut engine, &regions(25, &[], None));
    assert_eq!(laid_out, Err(SourceError::Mismatch));
}

#[test]
fn copied_spill_is_the_same() {
    assert_eq!(spill(&[20, 30], 4).clone(), spill(&[20, 30], 4));
}

fn placed(float: bool, alignment: Smart<Alignment>) -> PlacedChild {
    PlacedChild {
        align_x: FixedAlignment::Center,
        align_y: Smart::Auto,
        scope: PlacementScope::Column,
        float,
        wrap: false,
        wrap_active: false,
        clearance: Abs(0),
        delta: Axes { x: Rel::absolute(Abs(0)), y: Rel::absolute(Abs(0)) },
        elem: 1,
        dropcap: None,
        locator: Locator(0),
        alignment,
        location: Location(77),
    }
}

#[test]
fn placed_content_is_centered_unless_aligned() {
    let request = |alignment| {
        let mut engine = Engine::new(vec![]);
        let base = Axes { x: Abs(5), y: Abs(6) };
        match placed(true, alignment).layout(&mut engine, base) {
            Err(SourceError::Unanswered(Request::Placed { align, region, .. })) => {
                assert_eq!(region.size, base);
                assert_eq!(region.expand, Axes { x: false, y: false });
                align
            }
            other => panic!("{:?}", other),
        }
    };
    let center = Alignment { x: Some(HAlignment::Center), y: None };
    let left = Alignment { x: Some(HAlignment::Left), y: None };
    assert_eq!(request(Smart::Auto), center);
    assert_eq!(request(Smart::Custom(left)), left);
}

#[test]
fn floating_frame_belongs_to_its_element() {
    let base = Axes { x: Abs(5), y: Abs(6) };
    let mut engine = Engine::new(vec![Answer::Frame(frame(1)), Answer::Frame(frame(1))]);
    let float = placed(true, Smart::Auto).layout(&mut engine, base).unwrap();
    assert_eq!(float, Frame { parent: Some(Location(77)), ..frame(1) });
    let fixed = placed(false, Smart::Auto).layout(&mut engine, base).unwrap();
    assert_eq!(fixed, frame(1));
}

#[test]
fn ends_of_blocks_and_paragraphs_are_marked() {
    assert_eq!(mark_block_end(frame(1)), Frame { hint: '\n', ..frame(1) });
    assert_eq!(mark_block_end(empty(1)), empty(1));
    let mut lines = vec![frame(1), frame(2)];
    mark_par_end(&mut lines);
    assert_eq!(lines, vec![frame(1), Frame { hint: '\n', ..frame(2) }]);
    let mut none: Vec<Frame> = vec![];
    mark_par_end(&mut none);
    assert!(none.is_empty());
}
