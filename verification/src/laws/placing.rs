//! Laws of what each kind of child does to a region.
use vstd::prelude::*;

use crate::child::{Child, LineChild, MultiChild, PlacedChild, SingleChild, SpillModel};
use crate::distribute::{DistModel, SnapshotModel};
use crate::element::{Alignment, HAlignment};
use crate::engine::{AnswerModel, ErrorModel, Insertions, RequestModel, StopModel, Verdict};
use crate::frame::{Frame, Tag};
use crate::geom::{Abs, Axes, FixedAlignment, Fr, Rel, Smart};
use crate::item::{last_fr_stop, Item};
use crate::laws::dialogue::{comes_next, further, is_open};
use crate::laws::items::{lemma_is_last_stop, lemma_last_fr_stop};
use crate::laws::spill::{law_spill_repeats_its_regions, region_height};
use crate::region::{Region, RegionsModel};
use crate::work::{ComposerModel, WorkModel};

verus! {

/// Items for tags.
pub open spec fn tag_items(tags: Seq<Tag>) -> Seq<Item> {
    Seq::new(tags.len(), |i: int| Item::Tag(tags[i]))
}

/// The state with the tags that waited and one more item, after an insertion.
pub open spec fn with_item(
    before: DistModel,
    y: Abs,
    item: Item,
    insertions: Insertions,
    used: nat,
) -> DistModel {
    DistModel {
        composer: ComposerModel {
            work: WorkModel { tags: Seq::empty(), insertions, ..before.composer.work },
            engine: further(before.composer.engine, used),
        },
        regions: RegionsModel {
            size: Axes { x: before.regions.size.x, y },
            expand: before.regions.expand,
            full: before.regions.full,
            backlog: before.regions.backlog,
            last: before.regions.last,
        },
        items: before.items + tag_items(before.composer.work.tags) + seq![item],
        ..before
    }
}

/// The state with the answers used and what waits after an insertion that interrupts the flow.
pub open spec fn interrupted(before: DistModel, insertions: Insertions, used: nat) -> DistModel {
    DistModel {
        composer: ComposerModel {
            work: WorkModel { insertions, ..before.composer.work },
            engine: further(before.composer.engine, used),
        },
        ..before
    }
}

/// The state with that many more answers used.
pub open spec fn asked(before: DistModel, used: nat) -> DistModel {
    DistModel {
        composer: ComposerModel {
            work: before.composer.work,
            engine: further(before.composer.engine, used),
        },
        ..before
    }
}

/// What comes of a verdict.
pub open spec fn verdict_of(verdict: Verdict) -> Result<(), StopModel> {
    match verdict {
        Verdict::Proceed => Ok(()),
        Verdict::Finish(forced) => Err(StopModel::Finish(forced)),
        Verdict::Relayout(scope) => Err(StopModel::Relayout(scope)),
        Verdict::Error(id) => Err(StopModel::Error(ErrorModel::Outside(id))),
    }
}

/// The state with the marks for sticky blocks as a frame leaves them. A frame that is not sticky
/// and draws something ends a group of sticky blocks, and one that draws nothing does not. The
/// first sticky frame of a group decides for the whole group whether it sticks: it does where
/// moving on may help, and then it can be undone from there.
pub open spec fn marked(before: DistModel, frame: Frame, sticky: bool) -> DistModel {
    if !sticky {
        if frame.is_empty() {
            before
        } else {
            DistModel { sticky: None, stickable: None, ..before }
        }
    } else if before.sticky is Some {
        before
    } else {
        let sticks = match before.stickable {
            Some(decided) => decided,
            None => before.regions.may_progress(),
        };
        DistModel {
            sticky: if sticks {
                Some(
                    SnapshotModel {
                        work: before.composer.work,
                        items: before.items.len(),
                    },
                )
            } else {
                None
            },
            stickable: Some(sticks),
            ..before
        }
    }
}

/// A tag waits for something to be attached to, and leaves everything else as it is. It does not
/// clear a live band either.
pub proof fn law_tag_waits(state: DistModel, tag: Tag)
    ensures
        state.with_child(Child::Tag(tag)) == (
            DistModel {
                composer: ComposerModel {
                    work: WorkModel {
                        tags: state.composer.work.tags.push(tag),
                        ..state.composer.work
                    },
                    engine: state.composer.engine,
                },
                ..state
            },
            Ok::<(), StopModel>(()),
        ),
{
}

/// A frame comes after the tags that waited and takes its height from the region. Its footnotes are
/// inserted first: they are told what remains, and their verdict decides whether the frame comes
/// at all.
pub proof fn law_frame_is_added_after_its_footnotes(
    state: DistModel,
    frame: Frame,
    align: Axes<FixedAlignment>,
    sticky: bool,
    breakable: bool,
    insertions: Insertions,
    verdict: Verdict,
)
    ensures
        is_open(state.composer.engine) ==> state.with_frame(frame, align, sticky, breakable).1
            == Err::<(), StopModel>(
            StopModel::Error(
                ErrorModel::Unanswered(
                    RequestModel::Footnotes {
                        regions: state.regions,
                        frame,
                        flow_need: frame.size.y,
                        breakable,
                        migratable: true,
                    },
                ),
            ),
        ),
        comes_next(state.composer.engine, seq![AnswerModel::Inserted(insertions, verdict)]) ==> {
            let noted = marked(state, frame, sticky);
            state.with_frame(frame, align, sticky, breakable) == if verdict is Proceed {
                (
                    with_item(
                        noted,
                        noted.regions.size.y.minus(frame.size.y),
                        Item::Frame(frame, align),
                        insertions,
                        1,
                    ),
                    Ok::<(), StopModel>(()),
                )
            } else {
                (interrupted(noted, insertions, 1), verdict_of(verdict))
            }
        },
{
    let answers = seq![AnswerModel::Inserted(insertions, verdict)];
    if comes_next(state.composer.engine, answers) {
        assert(answers[0] == state.composer.engine.answers[state.composer.engine.next as int]);
    }
}

/// A line goes to the next region where it must, and then leaves everything as it is. Else its
/// frame is added as it is, aligned as it says, and ends a group of sticky blocks.
pub proof fn law_line_stays_or_moves_on(state: DistModel, line: LineChild)
    requires
        state.band is None,
    ensures
        state.regions.must_move_on(line.frame.size.y, line.need) ==> state.with_child(
            Child::Line(line),
        ) == (state, Err::<(), StopModel>(StopModel::Finish(false))),
        !state.regions.must_move_on(line.frame.size.y, line.need) ==> state.with_child(
            Child::Line(line),
        ) == state.with_frame(line.frame, line.align, false, false),
{
}

/// An unbreakable block is laid out into the full height of the region, where it may expand
/// vertically only if it is the only child.
pub proof fn law_single_is_laid_out_into_full_height(state: DistModel, single: SingleChild)
    requires
        state.band is None,
        is_open(state.composer.engine),
    ensures
        state.with_child(Child::Single(single)) == (
            state,
            Err::<(), StopModel>(
                StopModel::Error(
                    ErrorModel::Unanswered(
                        RequestModel::Single {
                            single,
                            region: Region {
                                size: Axes { x: state.regions.size.x, y: state.regions.full },
                                expand: Axes {
                                    x: state.regions.expand.x,
                                    y: state.regions.expand.y && single.alone,
                                },
                            },
                        },
                    ),
                ),
            ),
        ),
{
}

/// An unbreakable block that is not sized by a fraction moves on as a whole where it is higher than
/// what remains and moving on may help: no item is added, and the block is still to do. It is only
/// added where it fits or where moving on cannot help, and then with its own alignment and
/// stickiness.
pub proof fn law_single_fits_or_moves_on(state: DistModel, single: SingleChild, frame: Frame)
    requires
        state.band is None,
        single.fr is None,
        comes_next(state.composer.engine, seq![AnswerModel::Frame(frame)]),
    ensures
        ({
            let fits = state.regions.size.y.plus(Abs(1)).0 >= frame.size.y.0;
            let (after, result) = state.with_child(Child::Single(single));
            &&& !fits && state.regions.may_progress() ==> {
                &&& result == Err::<(), StopModel>(StopModel::Finish(false))
                &&& after == asked(state, 1)
                &&& after.items == state.items
                &&& after.composer.work.head == state.composer.work.head
            }
            &&& fits || !state.regions.may_progress() ==> (after, result) == asked(
                state,
                1,
            ).with_frame(frame, single.align, single.sticky, false)
        }),
{
    let answers = seq![AnswerModel::Frame(frame)];
    assert(answers[0] == state.composer.engine.answers[state.composer.engine.next as int]);
}

/// An unbreakable block that is sized by a fraction takes up no height yet. It is kept with its
/// fraction, whatever remains, once its footnotes are inserted, and its fraction never collapses.
pub proof fn law_fractional_block_waits_for_its_share(
    state: DistModel,
    single: SingleChild,
    frame: Frame,
    insertions: Insertions,
)
    requires
        state.band is None,
        single.fr is Some,
        comes_next(state.composer.engine, seq![AnswerModel::Frame(frame)]),
    ensures
        state.composer.engine.next + 1 == state.composer.engine.answers.len() ==> state.with_child(
            Child::Single(single),
        ).1 == Err::<(), StopModel>(
            StopModel::Error(
                ErrorModel::Unanswered(
                    RequestModel::Footnotes {
                        regions: state.regions,
                        frame,
                        flow_need: Abs(0),
                        breakable: false,
                        migratable: true,
                    },
                ),
            ),
        ),
        comes_next(
            state.composer.engine,
            seq![
                AnswerModel::Frame(frame),
                AnswerModel::Inserted(insertions, Verdict::Proceed),
            ],
        ) ==> state.with_child(Child::Single(single)) == (
            with_item(
                state,
                state.regions.size.y,
                Item::Fr(single.fr->Some_0, 0, Some(single)),
                insertions,
                2,
            ),
            Ok::<(), StopModel>(()),
        ),
{
    let next = state.composer.engine.next as int;
    let answers = seq![AnswerModel::Frame(frame)];
    assert(answers[0] == state.composer.engine.answers[next]);
    let both = seq![
        AnswerModel::Frame(frame),
        AnswerModel::Inserted(insertions, Verdict::Proceed),
    ];
    if comes_next(state.composer.engine, both) {
        assert(both[1] == state.composer.engine.answers[next + 1]);
    }
}

/// A breakable block is laid out into what remains of the region and the regions that follow, where
/// it may expand vertically only if it is the only child. A full region takes no block at all.
pub proof fn law_multi_is_laid_out_into_what_remains(state: DistModel, multi: MultiChild)
    requires
        state.band is None,
    ensures
        state.regions.is_full() ==> state.with_child(Child::Multi(multi)) == (
            state,
            Err::<(), StopModel>(StopModel::Finish(false)),
        ),
        !state.regions.is_full() && is_open(state.composer.engine) ==> state.with_child(
            Child::Multi(multi),
        ) == (
            state,
            Err::<(), StopModel>(
                StopModel::Error(
                    ErrorModel::Unanswered(
                        RequestModel::Multi {
                            multi,
                            regions: RegionsModel {
                                size: state.regions.size,
                                expand: Axes {
                                    x: state.regions.expand.x,
                                    y: state.regions.expand.y && multi.alone,
                                },
                                full: state.regions.full,
                                backlog: state.regions.backlog,
                                last: state.regions.last,
                            },
                        },
                    ),
                ),
            ),
        ),
{
}

/// The first frame of a breakable block is added to the region, with the block's own alignment and
/// stickiness. If there are more, the region is finished with the block taken off, and what is left
/// of it is kept: the block itself, how much remained and how high the region was, and how many
/// regions there were to follow. A block that would only leave an empty frame behind moves on as
/// a whole.
pub proof fn law_multi_adds_its_first_frame(
    state: DistModel,
    multi: MultiChild,
    frames: Seq<Frame>,
    insertions: Insertions,
)
    requires
        state.band is None,
        !state.regions.is_full(),
        frames.len() > 0,
        comes_next(state.composer.engine, seq![AnswerModel::Frames(frames)]),
    ensures
        ({
            let drawn = exists|i: int| 0 <= i < frames.len() && !(#[trigger] frames[i]).is_empty();
            let orphan = frames.len() > 1 && frames[0].is_empty() && drawn
                && state.regions.may_progress();
            let (after, result) = state.with_child(Child::Multi(multi));
            &&& orphan ==> (after, result) == (
                asked(state, 1),
                Err::<(), StopModel>(StopModel::Finish(false)),
            )
            &&& !orphan && frames.len() == 1 ==> (after, result) == asked(state, 1).with_frame(
                frames[0],
                multi.align,
                multi.sticky,
                true,
            )
            &&& !orphan && frames.len() > 1 ==> {
                let framed = asked(state, 1).with_frame(frames[0], multi.align, multi.sticky, true);
                &&& framed.1 is Err ==> (after, result) == framed
                &&& framed.1 is Ok ==> {
                    &&& result == Err::<(), StopModel>(StopModel::Finish(false))
                    &&& after.items == framed.0.items
                    &&& after.regions == framed.0.regions
                    &&& after.sticky == framed.0.sticky
                    &&& after.stickable == framed.0.stickable
                    &&& after.composer.engine == framed.0.composer.engine
                    &&& after.composer.work.head == state.composer.work.head + 1
                    &&& after.composer.work.children == state.composer.work.children
                    &&& after.composer.work.tags == framed.0.composer.work.tags
                    &&& after.composer.work.wrap_spill == state.composer.work.wrap_spill
                    &&& after.composer.work.insertions == framed.0.composer.work.insertions
                    &&& after.composer.work.spill == Some(
                        SpillModel {
                            exist_non_empty_frame: drawn,
                            multi,
                            first: state.regions.size.y,
                            full: state.regions.full,
                            backlog: Seq::empty(),
                            min_backlog_len: state.regions.backlog.len(),
                        },
                    )
                    &&& !after.composer.work.done()
                }
            }
        }),
{
    let answers = seq![AnswerModel::Frames(frames)];
    assert(answers[0] == state.composer.engine.answers[state.composer.engine.next as int]);
}

/// What is left of a block waits while the region is full. Else the block is laid out again, as
/// the same block in the same width, into the regions that it went through, of which the first one
/// has what remained of it and its full height from back then.
pub proof fn law_spill_is_laid_out_again(state: DistModel, spill: SpillModel)
    requires
        state.composer.work.spill == Some(spill),
    ensures
        state.regions.is_full() ==> state.with_block_resumed() == (
            state,
            Err::<(), StopModel>(StopModel::Finish(false)),
        ),
        !state.regions.is_full() && is_open(state.composer.engine) ==> (
        state.with_block_resumed().1 matches Err(
            StopModel::Error(ErrorModel::Unanswered(RequestModel::Multi { multi, regions })),
        ) && {
            &&& multi == spill.multi
            &&& regions.size == (Axes { x: state.regions.size.x, y: spill.first })
            &&& regions.expand == (Axes {
                x: state.regions.expand.x,
                y: state.regions.expand.y && spill.multi.alone,
            })
            &&& regions.full == spill.full
            &&& regions.last == state.regions.last
            &&& forall|i: nat| #[trigger]
                region_height(regions.backlog, regions.last, i) == if i < spill.backlog.len() {
                    Some(spill.backlog[i as int])
                } else if i == spill.backlog.len() {
                    Some(state.regions.size.y)
                } else {
                    region_height(
                        state.regions.backlog,
                        state.regions.last,
                        (i - spill.backlog.len() - 1) as nat,
                    )
                }
        }),
{
    assert(state.with_spill(None).with_spill(Some(spill)) =~= state);
    assert forall|i: nat| #[trigger]
        region_height(
            spill.pod(state.regions).backlog,
            spill.pod(state.regions).last,
            i,
        ) == if i < spill.backlog.len() {
            Some(spill.backlog[i as int])
        } else if i == spill.backlog.len() {
            Some(state.regions.size.y)
        } else {
            region_height(
                state.regions.backlog,
                state.regions.last,
                (i - spill.backlog.len() - 1) as nat,
            )
        } by {
        law_spill_repeats_its_regions(spill, state.regions, i);
    }
}

/// No frame of a block is lost between regions. Where the block goes on, the frame that follows
/// those of the regions that it went through is added, aligned as the block is. If frames are left
/// over then, the region is finished, and the work holds what is left of the same block, with the
/// height of this region committed after the former ones: it is not done. Only when the last frame
/// is drawn is nothing left of the block.
pub proof fn law_no_frame_of_a_block_is_lost(
    state: DistModel,
    spill: SpillModel,
    frames: Seq<Frame>,
)
    requires
        state.composer.work.spill == Some(spill),
        !state.regions.is_full(),
        comes_next(state.composer.engine, seq![AnswerModel::Frames(frames)]),
    ensures
        ({
            let i = spill.backlog.len() as int + 1;
            let (after, result) = state.with_block_resumed();
            let taken = DistModel {
                composer: ComposerModel {
                    work: WorkModel { spill: None, ..state.composer.work },
                    engine: further(state.composer.engine, 1),
                },
                ..state
            };
            &&& frames.len() <= i ==> result == Err::<(), StopModel>(
                StopModel::Error(ErrorModel::Mismatch),
            )
            &&& frames.len() > i ==> {
                let framed = taken.with_frame(frames[i], spill.multi.align, false, true);
                &&& framed.1 is Err ==> (after, result) == framed
                &&& framed.1 is Ok && frames.len() == i + 1 ==> (after, result) == framed
                    && after.composer.work.spill is None
                &&& framed.1 is Ok && frames.len() > i + 1 ==> {
                    &&& result == Err::<(), StopModel>(StopModel::Finish(false))
                    &&& after.items == framed.0.items
                    &&& after.regions == framed.0.regions
                    &&& after.composer.engine == framed.0.composer.engine
                    &&& after.composer.work.head == state.composer.work.head
                    &&& after.composer.work.tags == framed.0.composer.work.tags
                    &&& after.composer.work.insertions == framed.0.composer.work.insertions
                    &&& !after.composer.work.done()
                    &&& after.composer.work.spill matches Some(rest) && {
                        &&& rest.multi == spill.multi
                        &&& rest.backlog == spill.backlog.push(state.regions.size.y)
                        &&& rest.first == spill.first
                        &&& rest.full == spill.full
                        &&& rest.exist_non_empty_frame == spill.exist_non_empty_frame
                        &&& rest.min_backlog_len >= spill.min_backlog_len
                    }
                }
            }
        }),
{
    let answers = seq![AnswerModel::Frames(frames)];
    assert(answers[0] == state.composer.engine.answers[state.composer.engine.next as int]);
}

/// The frame of a placed element: that of a floating one belongs to its element.
pub open spec fn owned(placed: PlacedChild, frame: Frame) -> Frame {
    if placed.float {
        Frame { parent: Some(placed.location), ..frame }
    } else {
        frame
    }
}

/// A placed element that does not float on its own is laid out into the full height of the region,
/// where it does not expand, with its content centered unless it is aligned otherwise.
pub proof fn law_placed_is_laid_out_into_full_height(state: DistModel, placed: PlacedChild)
    requires
        state.band is None,
        !placed.float || placed.wrap,
        is_open(state.composer.engine),
    ensures
        state.with_child(Child::Placed(placed)) == (
            state,
            Err::<(), StopModel>(
                StopModel::Error(
                    ErrorModel::Unanswered(
                        RequestModel::Placed {
                            placed,
                            align: match placed.alignment {
                                Smart::Custom(align) => align,
                                Smart::Auto => Alignment { x: Some(HAlignment::Center), y: None },
                            },
                            region: Region {
                                size: Axes { x: state.regions.size.x, y: state.regions.full },
                                expand: Axes { x: false, y: false },
                            },
                        },
                    ),
                ),
            ),
        ),
{
}

/// The footnotes of a placed element are told how much of the flow it needs: nothing if it does not
/// float, its height if text wraps around it. It counts as breakable.
pub proof fn law_placed_footnotes_know_its_height(
    state: DistModel,
    placed: PlacedChild,
    frame: Frame,
)
    requires
        state.band is None,
        !placed.float || placed.wrap,
        comes_next(state.composer.engine, seq![AnswerModel::Frame(frame)]),
        state.composer.engine.next + 1 == state.composer.engine.answers.len(),
    ensures
        state.with_child(Child::Placed(placed)).1 == Err::<(), StopModel>(
            StopModel::Error(
                ErrorModel::Unanswered(
                    RequestModel::Footnotes {
                        regions: state.regions,
                        frame: owned(placed, frame),
                        flow_need: if placed.float {
                            frame.size.y
                        } else {
                            Abs(0)
                        },
                        breakable: true,
                        migratable: true,
                    },
                ),
            ),
        ),
{
    let answers = seq![AnswerModel::Frame(frame)];
    assert(answers[0] == state.composer.engine.answers[state.composer.engine.next as int]);
}

/// A placed element that does not float takes up no height and leaves a group of sticky blocks
/// alone. A float that a paragraph wraps around takes up no height either; it waits on its side for
/// that paragraph. A side-wrap float that no paragraph wraps around takes up its height in place,
/// at the start. Both floats end a group of sticky blocks if they draw something.
pub proof fn law_placed_takes_height_only_if_nothing_wraps(
    state: DistModel,
    placed: PlacedChild,
    frame: Frame,
    insertions: Insertions,
)
    requires
        state.band is None,
        !placed.float || placed.wrap,
        comes_next(
            state.composer.engine,
            seq![
                AnswerModel::Frame(frame),
                AnswerModel::Inserted(insertions, Verdict::Proceed),
            ],
        ),
    ensures
        ({
            let drawn = owned(placed, frame);
            let y = state.regions.size.y;
            let ended = marked(state, drawn, false);
            let (after, result) = state.with_child(Child::Placed(placed));
            &&& result is Ok
            &&& !placed.float ==> after == with_item(
                state,
                y,
                Item::Placed(frame, placed),
                insertions,
                2,
            )
            &&& placed.float && placed.wrap_active ==> after == (DistModel {
                pending: Some((drawn, placed.align_x)),
                ..with_item(
                    ended,
                    y,
                    Item::WrapFloat(drawn, placed.align_x, Abs(0)),
                    insertions,
                    2,
                )
            })
            &&& placed.float && !placed.wrap_active ==> after == with_item(
                ended,
                y.minus(frame.size.y),
                Item::Frame(
                    drawn,
                    Axes { x: placed.align_x, y: FixedAlignment::Start },
                ),
                insertions,
                2,
            )
        }),
{
    let next = state.composer.engine.next as int;
    let both = seq![
        AnswerModel::Frame(frame),
        AnswerModel::Inserted(insertions, Verdict::Proceed),
    ];
    assert(both[0] == state.composer.engine.answers[next]);
    assert(both[1] == state.composer.engine.answers[next + 1]);
}

/// The amount of weak spacing at the end is that of the last item but tags, placed elements, wrap
/// floats and strong spacing, if that is weak relative spacing. Else it is zero.
pub proof fn law_trailing_is_weak_spacing_at_the_end(state: DistModel, i: int)
    requires
        -1 <= i < state.items.len(),
        forall|k: int|
            i < k < state.items.len() ==> ((#[trigger] state.items[k]) is Tag
                || state.items[k] is Placed || state.items[k] is WrapFloat || (
            state.items[k] matches Item::Abs(_, weakness) && weakness == 0)),
        i >= 0 ==> state.items[i] is Frame || state.items[i] is Fr || (
        state.items[i] matches Item::Abs(_, weakness) && weakness > 0),
    ensures
        state.trailing() == if i >= 0 {
            match state.items[i] {
                Item::Abs(amount, _) => amount,
                _ => Abs(0),
            }
        } else {
            Abs(0)
        },
        ({
            let after = state.trimmed();
            if i >= 0 {
                match state.items[i] {
                    Item::Abs(amount, _) => {
                        &&& after.items == state.items.take(i) + state.items.skip(i + 1)
                        &&& after.regions.size.y == state.regions.size.y.plus(amount)
                    },
                    Item::Fr(_, weakness, None) => {
                        &&& weakness > 0 ==> after.items == state.items.take(i) + state.items.skip(
                            i + 1,
                        )
                        &&& weakness == 0 ==> after.items == state.items
                        &&& after.regions == state.regions
                    },
                    _ => after == state,
                }
            } else {
                after == state
            }
        }),
{
    assert forall|k: int| i < k < state.items.len() implies (
    #[trigger] state.items[k]).see_through() by {}
    lemma_is_last_stop(state.items, i);
    if i >= 0 {
        assert(state.items.remove(i) =~= state.items.take(i) + state.items.skip(i + 1));
    }
}

/// A float that text does not wrap around is handed on. It may use the space of weak spacing at the
/// end, and it is told whether it needs clearance from a frame in the region. Unless its insertion
/// interrupts the flow, nothing but what waits changes.
pub proof fn law_float_is_handed_on(
    state: DistModel,
    placed: PlacedChild,
    insertions: Insertions,
    verdict: Verdict,
)
    requires
        state.band is None,
        placed.float,
        !placed.wrap,
    ensures
        is_open(state.composer.engine) ==> state.with_child(Child::Placed(placed)).1 == Err::<
            (),
            StopModel,
        >(
            StopModel::Error(
                ErrorModel::Unanswered(
                    RequestModel::Float {
                        placed,
                        regions: RegionsModel {
                            size: Axes {
                                x: state.regions.size.x,
                                y: state.regions.size.y.plus(state.trailing()),
                            },
                            expand: state.regions.expand,
                            full: state.regions.full,
                            backlog: state.regions.backlog,
                            last: state.regions.last,
                        },
                        clearance: exists|k: int|
                            0 <= k < state.items.len() && (#[trigger] state.items[k]) is Frame,
                        migratable: true,
                    },
                ),
            ),
        ),
        comes_next(state.composer.engine, seq![AnswerModel::Inserted(insertions, verdict)]) ==> {
            let (after, result) = state.with_child(Child::Placed(placed));
            &&& result == verdict_of(verdict)
            &&& after.items == state.items
            &&& after.composer == interrupted(state, insertions, 1).composer
            &&& after.sticky == state.sticky
            &&& after.stickable == state.stickable
            &&& after.pending == state.pending
            &&& verdict is Proceed ==> after.regions == RegionsModel {
                size: Axes {
                    x: state.regions.size.x,
                    y: state.regions.size.y.plus(state.trailing()).minus(state.trailing()),
                },
                expand: state.regions.expand,
                full: state.regions.full,
                backlog: state.regions.backlog,
                last: state.regions.last,
            }
        },
{
    let answers = seq![AnswerModel::Inserted(insertions, verdict)];
    if comes_next(state.composer.engine, answers) {
        assert(answers[0] == state.composer.engine.answers[state.composer.engine.next as int]);
    }
}

/// A float flush finishes the region while floats wait, and is passed over otherwise.
pub proof fn law_flush_waits_for_floats(state: DistModel)
    requires
        state.band is None,
    ensures
        state.with_child(Child::Flush) == (
            state,
            if state.composer.work.insertions.floats == 0 {
                Ok::<(), StopModel>(())
            } else {
                Err(StopModel::Finish(false))
            },
        ),
{
}

/// A column break forces the region to end if another one follows, and is taken off then. It is
/// passed over where no region follows, and where it is weak and the region holds nothing yet.
pub proof fn law_break_forces_the_region_to_end(state: DistModel, weak: bool)
    requires
        state.band is None,
    ensures
        ({
            let (after, result) = state.with_child(Child::Break(weak));
            let follows = state.regions.backlog.len() > 0 || state.regions.last is Some;
            if follows && (!weak || state.items.len() > 0) {
                &&& result == Err::<(), StopModel>(StopModel::Finish(true))
                &&& after == (DistModel {
                    composer: ComposerModel {
                        work: WorkModel {
                            head: state.composer.work.head + 1,
                            ..state.composer.work
                        },
                        engine: state.composer.engine,
                    },
                    ..state
                })
            } else {
                (after, result) == (state, Ok::<(), StopModel>(()))
            }
        }),
{
}

/// Strong spacing is always added, and takes its amount from the region. Relative spacing refers to
/// the full height of the region. Fractional spacing takes nothing yet.
pub proof fn law_strong_spacing_is_added(state: DistModel, rel: Rel, fr: Fr)
    requires
        state.band is None,
    ensures
        ({
            let amount = rel.relative_to(state.regions.full);
            state.with_child(Child::Rel(rel, 0)) == (
                DistModel {
                    regions: RegionsModel {
                        size: Axes {
                            x: state.regions.size.x,
                            y: state.regions.size.y.minus(amount),
                        },
                        expand: state.regions.expand,
                        full: state.regions.full,
                        backlog: state.regions.backlog,
                        last: state.regions.last,
                    },
                    items: state.items.push(Item::Abs(amount, 0)),
                    ..state
                },
                Ok::<(), StopModel>(()),
            )
        }),
        ({
            let (after, result) = state.with_child(Child::Fr(fr, 0));
            &&& result is Ok
            &&& after == (DistModel {
                items: state.trimmed().items.push(Item::Fr(fr, 0, None)),
                ..state.trimmed()
            })
        }),
{
}

/// What weak spacing does depends on the last item but those that it is collapsed across.
///
/// Weak relative spacing is added after a frame or a fractional block. It goes at the start of
/// a region and after fractional spacing. Where there is weak relative spacing already, the
/// stronger of the two stays, or the larger of two equally strong ones.
pub proof fn law_weak_spacing_depends_on_what_precedes(
    state: DistModel,
    rel: Rel,
    weakness: u8,
    i: int,
)
    requires
        state.band is None,
        weakness > 0,
        -1 <= i < state.items.len(),
        forall|k: int|
            i < k < state.items.len() ==> ((#[trigger] state.items[k]) is Tag
                || state.items[k] is Placed || state.items[k] is WrapFloat || (
            state.items[k] matches Item::Abs(_, weakness) && weakness == 0)),
        i >= 0 ==> state.items[i] is Frame || state.items[i] is Fr || (
        state.items[i] matches Item::Abs(_, weakness) && weakness > 0),
    ensures
        ({
            let amount = rel.relative_to(state.regions.full);
            let y = state.regions.size.y;
            let (after, result) = state.with_child(Child::Rel(rel, weakness));
            &&& result is Ok
            &&& after.composer == state.composer
            &&& i < 0 ==> after == state
            &&& i >= 0 ==> match state.items[i] {
                Item::Fr(_, _, None) => after == state,
                Item::Abs(prev, prev_weakness) => if weakness < prev_weakness || (weakness
                    == prev_weakness && amount.0 > prev.0) {
                    &&& after.items == state.items.update(i, Item::Abs(amount, weakness))
                    &&& after.regions.size.y == y.minus(amount.minus(prev))
                } else {
                    after == state
                },
                _ => {
                    &&& after.items == state.items.push(Item::Abs(amount, weakness))
                    &&& after.regions.size.y == y.minus(amount)
                },
            }
        }),
{
    assert forall|k: int| i < k < state.items.len() implies (
    #[trigger] state.items[k]).see_through() by {}
    lemma_is_last_stop(state.items, i);
}

/// Weak fractional spacing is added after a frame, a fractional block or strong fractional spacing,
/// in place of weak relative spacing before it. It goes at the start of a region. Where there is
/// weak fractional spacing already, the stronger of the two stays, or the larger of two equally
/// strong ones.
pub proof fn law_weak_fraction_depends_on_what_precedes(
    state: DistModel,
    fr: Fr,
    weakness: u8,
    i: int,
)
    requires
        state.band is None,
        weakness > 0,
        -1 <= i < state.items.len(),
        forall|k: int|
            i < k < state.items.len() ==> ((#[trigger] state.items[k]) is Tag
                || state.items[k] is Placed || state.items[k] is WrapFloat
                || state.items[k] is Abs),
        i >= 0 ==> state.items[i] is Frame || state.items[i] is Fr,
    ensures
        ({
            let (after, result) = state.with_child(Child::Fr(fr, weakness));
            let added = DistModel {
                items: state.trimmed().items.push(Item::Fr(fr, weakness, None)),
                ..state.trimmed()
            };
            &&& result is Ok
            &&& i < 0 ==> after == state
            &&& i >= 0 ==> match state.items[i] {
                Item::Fr(prev, prev_weakness, None) => if prev_weakness == 0 {
                    after == added
                } else if weakness < prev_weakness || (weakness == prev_weakness && fr.0
                    > prev.0) {
                    after == (DistModel {
                        items: state.items.update(i, Item::Fr(fr, weakness, None)),
                        ..state
                    })
                } else {
                    after == state
                },
                _ => after == added,
            }
        }),
{
    lemma_last_fr_stop(state.items);
    let j = last_fr_stop(state.items);
    if j < i {
        assert(state.items[i].fr_see_through());
    } else if j > i {
        assert(state.items[j].fr_see_through());
    }
}

/// What is left of a live band is reserved before any child that does not continue it, so that the
/// child cannot overlap the float: strong spacing of that height is added, and the band is gone.
pub proof fn law_rest_of_band_is_reserved(state: DistModel, child: Child)
    requires
        state.band is Some,
    ensures
        ({
            let remaining = state.band->Some_0.remaining;
            let cleared = state.with_band_cleared(child);
            if child is Tag || (child matches Child::Deferred(d) && d.continuation) {
                cleared == state
            } else {
                cleared == (DistModel {
                    regions: RegionsModel {
                        size: Axes {
                            x: state.regions.size.x,
                            y: state.regions.size.y.minus(remaining),
                        },
                        expand: state.regions.expand,
                        full: state.regions.full,
                        backlog: state.regions.backlog,
                        last: state.regions.last,
                    },
                    items: state.items.push(Item::Abs(remaining, 0)),
                    band: None,
                    ..state
                })
            }
        }),
        !(child is Tag || (child matches Child::Deferred(d) && d.continuation))
            ==> state.with_child(child) == state.with_band_cleared(child).with_child(child),
{
}

/// What spilled over comes before anything else, first what is left of a block, then what is left
/// of a paragraph: as long as that stops the distribution, no child is taken off.
pub proof fn law_what_spilled_over_comes_first(state: DistModel)
    ensures
        state.composer.work.spill is Some && state.with_block_resumed().1 is Err ==> state.run()
            == state.with_block_resumed(),
        state.composer.work.spill is None && state.composer.work.wrap_spill is Some
            && state.with_par_resumed().1 is Err ==> state.run() == state.with_par_resumed(),
        state.composer.work.spill is None && state.composer.work.wrap_spill is None ==> state.run()
            == state.with_children(state.composer.work.children, state.composer.work.head as int),
{
}

/// Lines that were carried on wait while the region is full.
pub proof fn law_carried_lines_wait_while_full(state: DistModel)
    requires
        state.composer.work.wrap_spill is Some,
        state.regions.is_full(),
    ensures
        state.with_par_resumed() == (state, Err::<(), StopModel>(StopModel::Finish(false))),
{
    assert(state.with_par_resumed().0 =~= state);
}

/// An insertion that interrupts the flow keeps a placed element or a fractional block from coming:
/// no item is added, nothing is taken from the region, and no float waits for a paragraph.
pub proof fn law_interruption_adds_nothing(
    state: DistModel,
    child: Child,
    frame: Frame,
    insertions: Insertions,
    verdict: Verdict,
)
    requires
        state.band is None,
        child matches Child::Placed(placed) ==> !placed.float || placed.wrap,
        child is Placed || (child matches Child::Single(single) && single.fr is Some),
        !(verdict is Proceed),
        comes_next(
            state.composer.engine,
            seq![AnswerModel::Frame(frame), AnswerModel::Inserted(insertions, verdict)],
        ),
    ensures
        ({
            let (after, result) = state.with_child(child);
            &&& result == verdict_of(verdict)
            &&& after.items == state.items
            &&& after.regions == state.regions
            &&& after.pending == state.pending
            &&& after.composer == interrupted(state, insertions, 2).composer
        }),
{
    let next = state.composer.engine.next as int;
    let both = seq![AnswerModel::Frame(frame), AnswerModel::Inserted(insertions, verdict)];
    assert(both[0] == state.composer.engine.answers[next]);
    assert(both[1] == state.composer.engine.answers[next + 1]);
}

/// Whether a child needs work done elsewhere before anything else.
pub open spec fn needs_work(state: DistModel, child: Child) -> bool {
    match child {
        Child::Line(line) => !state.regions.must_move_on(line.frame.size.y, line.need),
        Child::Multi(_) => !state.regions.is_full(),
        Child::Single(_) | Child::Placed(_) | Child::Deferred(_) => true,
        _ => false,
    }
}

/// Work that failed stops the flow with its error, and an answer that is not one to the request is
/// told apart from that.
pub proof fn law_failed_work_stops_the_flow(state: DistModel, child: Child, id: u64)
    requires
        state.band is None,
        needs_work(state, child),
    ensures
        comes_next(state.composer.engine, seq![AnswerModel::Failure(id)]) ==> state.with_child(
            child,
        ).1 == Err::<(), StopModel>(StopModel::Error(ErrorModel::Outside(id))),
        comes_next(state.composer.engine, seq![AnswerModel::Width(Abs(0))]) ==> state.with_child(
            child,
        ).1 == Err::<(), StopModel>(StopModel::Error(ErrorModel::Mismatch)),
        comes_next(state.composer.engine, seq![AnswerModel::Frames(Seq::empty())])
            && child is Multi ==> state.with_child(child).1 == Err::<(), StopModel>(
            StopModel::Error(ErrorModel::Mismatch),
        ),
{
    let next = state.composer.engine.next as int;
    let failure = seq![AnswerModel::Failure(id)];
    let width = seq![AnswerModel::Width(Abs(0))];
    let empty = seq![AnswerModel::Frames(Seq::empty())];
    if comes_next(state.composer.engine, failure) {
        assert(failure[0] == state.composer.engine.answers[next]);
    }
    if comes_next(state.composer.engine, width) {
        assert(width[0] == state.composer.engine.answers[next]);
    }
    if comes_next(state.composer.engine, empty) {
        assert(empty[0] == state.composer.engine.answers[next]);
    }
}

/// Children are processed one after the other. Each one that does not stop the distribution is
/// taken off before the next one comes.
pub proof fn law_children_are_processed_one_by_one(
    state: DistModel,
    children: Seq<Child>,
    k: int,
)
    requires
        0 <= k <= children.len(),
    ensures
        k == children.len() ==> state.with_children(children, k) == (
            state,
            Ok::<(), StopModel>(()),
        ),
        k < children.len() ==> {
            let (after, result) = state.with_child(children[k]);
            &&& result is Err ==> state.with_children(children, k) == (after, result)
            &&& result is Ok ==> state.with_children(children, k) == (DistModel {
                composer: ComposerModel {
                    work: WorkModel {
                        head: after.composer.work.head + 1,
                        ..after.composer.work
                    },
                    engine: after.composer.engine,
                },
                ..after
            }).with_children(children, k + 1)
        },
{
}

/// The tags that waited come out in order at the end of the items, and none waits any more.
pub proof fn law_tags_come_out_in_order(state: DistModel)
    ensures
        state.with_tags_flushed() == (DistModel {
            composer: ComposerModel {
                work: WorkModel { tags: Seq::empty(), ..state.composer.work },
                engine: state.composer.engine,
            },
            items: state.items + tag_items(state.composer.work.tags),
            ..state
        }),
{
}

} // verus!
