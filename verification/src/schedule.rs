//! Runs of the scheduler over a sequence of frames, and what holds of every run.

use vstd::prelude::*;
use crate::ca_compute::{
    CAState, Frame, next_state, Pass, pass_of, pass_when, pipeline_of, PipelineStatus,
};

verus! {

/// The state of a scheduler that started in `Loading` and has been evaluated once for
/// each of `frames`, in order.
pub open spec fn state_after(frames: Seq<Frame>) -> CAState
    decreases frames.len(),
{
    if frames.len() == 0 {
        CAState::Loading
    } else {
        next_state(state_after(frames.drop_last()), frames.last())
    }
}

/// The state in which the scheduler ends frame `k` of `frames`.
pub open spec fn state_in(frames: Seq<Frame>, k: int) -> CAState {
    state_after(frames.take(k + 1))
}

/// The pass that is run in frame `k` of `frames`, if any: that of the state in which
/// the scheduler ends the frame, with the pipelines as they are in that frame.
pub open spec fn pass_in(frames: Seq<Frame>, k: int) -> Option<Pass> {
    pass_when(state_in(frames, k), frames[k].init_pipeline, frames[k].update_pipeline)
}

/// Whether no new seeding is requested in the frames of `frames` up to frame `k`.
pub open spec fn no_request_up_to(frames: Seq<Frame>, k: int) -> bool {
    forall|j: int| 0 <= j <= k && j < frames.len() ==> !(#[trigger] frames[j]).reinit
}

/// Whether `other` is `frames` but for the requests for a new seeding in the frames
/// after `a` and before `b`.
pub open spec fn same_but_requests(frames: Seq<Frame>, other: Seq<Frame>, a: int, b: int) -> bool {
    &&& other.len() == frames.len()
    &&& forall|j: int|
        0 <= j < frames.len() ==> {
            &&& (#[trigger] other[j]).init_pipeline == frames[j].init_pipeline
            &&& other[j].update_pipeline == frames[j].update_pipeline
            &&& other[j].do_update == frames[j].do_update
            &&& (other[j].reinit == frames[j].reinit || a < j < b)
        }
}

/// The state in a frame follows from the state in the frame before it, or from `Loading`
/// in the first frame, by one step.
pub proof fn lemma_state_in_step(frames: Seq<Frame>, k: int)
    requires
        0 <= k < frames.len(),
    ensures
        state_in(frames, k) == next_state(
            if k == 0 {
                CAState::Loading
            } else {
                state_in(frames, k - 1)
            },
            frames[k],
        ),
{
    let prefix = frames.take(k + 1);
    assert(prefix.last() == frames[k]);
    assert(prefix.drop_last() =~= frames.take(k));
    if k == 0 {
        assert(state_after(frames.take(0)) == CAState::Loading);
    }
}

/// As long as the pipeline that seeds the grid is not ready and no new seeding is
/// requested, the scheduler stays in `Loading`.
pub proof fn lemma_init_waits(frames: Seq<Frame>, k: int)
    requires
        0 <= k < frames.len(),
        forall|j: int|
            0 <= j <= k ==> (#[trigger] frames[j]).init_pipeline != PipelineStatus::Ready
                && !frames[j].reinit,
    ensures
        state_in(frames, k) == CAState::Loading,
    decreases k,
{
    lemma_state_in_step(frames, k);
    if k > 0 {
        lemma_init_waits(frames, k - 1);
    }
}

/// As long as the pipeline that steps the simulation is not ready, the scheduler is in
/// `Loading` or `Init`, whatever else happens.
pub proof fn lemma_update_waits(frames: Seq<Frame>, k: int)
    requires
        0 <= k < frames.len(),
        forall|j: int| 0 <= j <= k ==> (#[trigger] frames[j]).update_pipeline != PipelineStatus::Ready,
    ensures
        state_in(frames, k) == CAState::Loading || state_in(frames, k) == CAState::Init,
    decreases k,
{
    lemma_state_in_step(frames, k);
    if k > 0 {
        lemma_update_waits(frames, k - 1);
    }
}

/// A pass is run only in a state that it belongs to, and only with its pipeline ready.
pub proof fn lemma_pass_needs_pipeline(
    state: CAState,
    init_pipeline: PipelineStatus,
    update_pipeline: PipelineStatus,
    pass: Pass,
)
    requires
        pass_when(state, init_pipeline, update_pipeline) == Some(pass),
    ensures
        pass_of(state) == Some(pass),
        pipeline_of(pass, init_pipeline, update_pipeline) == PipelineStatus::Ready,
{
}

/// A frame that runs the update pass follows a frame that the scheduler ended in
/// `Update`.
pub proof fn lemma_update_pass_follows_update(frames: Seq<Frame>, k: int)
    requires
        0 <= k < frames.len(),
        pass_in(frames, k) == Some(Pass::Update),
    ensures
        k > 0,
        state_in(frames, k - 1) == CAState::Update,
{
    lemma_state_in_step(frames, k);
}

/// Scheduler safety. Let the pipeline that seeds the grid be not ready before frame
/// `f1`, and the pipeline that steps the simulation not before frame `f2`. Then the
/// scheduler is in `Loading` in every frame before `f1` up to which no new seeding is
/// requested, and runs no pass in any frame before `f1`, requested or not; it is in
/// `Loading` or `Init` in every frame before `f2`; and it runs the update pass in no
/// frame up to `f2`, and only right after a frame that it ended in `Update`.
pub proof fn lemma_scheduler_safety(frames: Seq<Frame>, f1: int, f2: int)
    requires
        0 <= f1 <= f2,
        forall|j: int|
            0 <= j < f1 && j < frames.len() ==> (#[trigger] frames[j]).init_pipeline
                != PipelineStatus::Ready,
        forall|j: int|
            0 <= j < f2 && j < frames.len() ==> (#[trigger] frames[j]).update_pipeline
                != PipelineStatus::Ready,
    ensures
        forall|k: int|
            0 <= k < f1 && k < frames.len() && no_request_up_to(frames, k) ==> #[trigger] state_in(
                frames,
                k,
            ) == CAState::Loading,
        forall|k: int| 0 <= k < f1 && k < frames.len() ==> #[trigger] pass_in(frames, k) is None,
        forall|k: int|
            0 <= k < f2 && k < frames.len() ==> #[trigger] state_in(frames, k) == CAState::Loading
                || state_in(frames, k) == CAState::Init,
        forall|k: int|
            0 <= k < frames.len() && #[trigger] pass_in(frames, k) == Some(Pass::Update) ==> k > f2
                && state_in(frames, k - 1) == CAState::Update,
{
    assert forall|k: int|
        0 <= k < f1 && k < frames.len() && no_request_up_to(frames, k) implies #[trigger] state_in(
            frames,
            k,
        ) == CAState::Loading by {
        lemma_init_waits(frames, k);
    }
    assert forall|k: int| 0 <= k < f1 && k < frames.len() implies #[trigger] pass_in(
        frames,
        k,
    ) is None by {
        assert(frames[k].init_pipeline != PipelineStatus::Ready);
        assert(frames[k].update_pipeline != PipelineStatus::Ready);
    }
    assert forall|k: int| 0 <= k < f2 && k < frames.len() implies #[trigger] state_in(frames, k)
        == CAState::Loading || state_in(frames, k) == CAState::Init by {
        lemma_update_waits(frames, k);
    }
    assert forall|k: int|
        0 <= k < frames.len() && #[trigger] pass_in(frames, k) == Some(Pass::Update) implies k > f2
            && state_in(frames, k - 1) == CAState::Update by {
        lemma_update_pass_follows_update(frames, k);
        if k - 1 < f2 {
            lemma_update_waits(frames, k - 1);
        }
    }
}

/// A request for a new seeding puts the scheduler into `Init`, whatever its state.
pub proof fn lemma_reinit_forces_init(state: CAState, frame: Frame)
    requires
        frame.reinit,
    ensures
        next_state(state, frame) == CAState::Init,
{
}

/// Repeated requests change nothing. Let a new seeding be requested in frame `a`, and
/// let the pipeline that steps the simulation be not ready in the frames after `a` and
/// before `b`, so that `Update` is not reached there. Then whether the request is raised
/// again in any of those frames makes no difference to the state in any frame, nor to
/// the pass that is run in it.
pub proof fn lemma_repeated_reinit(frames: Seq<Frame>, other: Seq<Frame>, a: int, b: int, k: int)
    requires
        0 <= a < frames.len(),
        frames[a].reinit,
        forall|j: int|
            a < j < b && j < frames.len() ==> (#[trigger] frames[j]).update_pipeline
                != PipelineStatus::Ready,
        same_but_requests(frames, other, a, b),
        0 <= k < frames.len(),
    ensures
        state_in(other, k) == state_in(frames, k),
        pass_in(other, k) == pass_in(frames, k),
        a <= k < b ==> state_in(frames, k) == CAState::Init,
    decreases k,
{
    lemma_state_in_step(frames, k);
    lemma_state_in_step(other, k);
    if k > 0 {
        lemma_repeated_reinit(frames, other, a, b, k - 1);
    }
    assert(other[k].init_pipeline == frames[k].init_pipeline);
    assert(other[a].reinit == frames[a].reinit);
}

} // verus!
