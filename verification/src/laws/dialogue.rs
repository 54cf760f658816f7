//! Laws of the dialogue with the layouters of the content.
use vstd::prelude::*;

use crate::element::PlacementScope;
use crate::engine::{AnswerModel, EngineModel, ErrorModel, RequestModel, StopModel, Verdict};

verus! {

/// Whether the next request has not been answered yet.
pub open spec fn is_open(engine: EngineModel) -> bool {
    engine.next >= engine.answers.len()
}

/// Whether the given answers come next.
pub open spec fn comes_next(engine: EngineModel, answers: Seq<AnswerModel>) -> bool {
    &&& engine.next + answers.len() <= engine.answers.len()
    &&& forall|i: int|
        0 <= i < answers.len() ==> #[trigger] answers[i] == engine.answers[engine.next + i]
}

/// The dialogue once that many more answers are used.
pub open spec fn further(engine: EngineModel, n: nat) -> EngineModel {
    EngineModel { answers: engine.answers, next: engine.next + n, sink: engine.sink }
}

/// Answers are used one by one, in order, whatever is asked. A request that has not been answered
/// is handed out as it is, and nothing is used up.
pub proof fn law_answers_are_used_in_order(engine: EngineModel, request: RequestModel)
    ensures
        is_open(engine) ==> engine.ask(request) == (
            engine,
            Err::<AnswerModel, ErrorModel>(ErrorModel::Unanswered(request)),
        ),
        !is_open(engine) ==> {
            let answer = engine.answers[engine.next as int];
            &&& engine.ask(request).0 == further(engine, 1)
            &&& answer matches AnswerModel::Failure(id) ==> engine.ask(request).1 == Err::<
                AnswerModel,
                ErrorModel,
            >(ErrorModel::Outside(id))
            &&& !(answer is Failure) ==> engine.ask(request).1 == Ok::<AnswerModel, ErrorModel>(
                answer,
            )
        },
{
}

/// Whether putting a request comes to the given value if the answer holds it, and to the right
/// error if there is no answer, if the work failed or if the answer is of another kind.
pub open spec fn told<T>(
    engine: EngineModel,
    request: RequestModel,
    value: Option<T>,
    outcome: (EngineModel, Result<T, ErrorModel>),
) -> bool {
    if is_open(engine) {
        outcome == (engine, Err::<T, ErrorModel>(ErrorModel::Unanswered(request)))
    } else {
        outcome == (
            further(engine, 1),
            match (value, engine.answers[engine.next as int]) {
                (Some(value), _) => Ok::<T, ErrorModel>(value),
                (None, AnswerModel::Failure(id)) => Err(ErrorModel::Outside(id)),
                (None, _) => Err(ErrorModel::Mismatch),
            },
        )
    }
}

/// Each kind of request gets out what its kind of answer holds, and nothing else.
pub proof fn law_requests_get_their_answers(engine: EngineModel, request: RequestModel)
    ensures
        ({
            let answer = engine.answers[engine.next as int];
            &&& told(
                engine,
                request,
                match answer {
                    AnswerModel::Frames(frames) => Some(frames),
                    _ => None,
                },
                engine.ask_frames(request),
            )
            &&& told(
                engine,
                request,
                match answer {
                    AnswerModel::Inline(frames, style) => Some((frames, style)),
                    _ => None,
                },
                engine.ask_inline(request),
            )
            &&& told(
                engine,
                request,
                match answer {
                    AnswerModel::Frame(frame) => Some(frame),
                    _ => None,
                },
                engine.ask_frame(request),
            )
            &&& told(
                engine,
                request,
                match answer {
                    AnswerModel::Inserted(insertions, verdict) => Some((insertions, verdict)),
                    _ => None,
                },
                engine.ask_inserted(request),
            )
            &&& told(
                engine,
                request,
                match answer {
                    AnswerModel::CapHeights(ratios) => Some(ratios),
                    _ => None,
                },
                engine.ask_cap_heights(request),
            )
            &&& told(
                engine,
                request,
                match answer {
                    AnswerModel::Width(width) => Some(width),
                    _ => None,
                },
                engine.ask_width(request),
            )
        }),
{
}

/// An insertion lets the flow go on, finishes the region, has a scope laid out again or is a fatal
/// error, just as its verdict says.
pub proof fn law_verdicts_are_carried_out(forced: bool, scope: PlacementScope, id: u64)
    ensures
        Verdict::Proceed.spec_outcome() is Ok,
        Verdict::Finish(forced).spec_outcome() == Err::<(), StopModel>(StopModel::Finish(forced)),
        Verdict::Relayout(scope).spec_outcome() == Err::<(), StopModel>(
            StopModel::Relayout(scope),
        ),
        Verdict::Error(id).spec_outcome() == Err::<(), StopModel>(
            StopModel::Error(ErrorModel::Outside(id)),
        ),
{
}

} // verus!
