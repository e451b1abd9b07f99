//! The scheduler that picks the compute pass of each frame, and the timer that paces the
//! simulation steps.

use vstd::prelude::*;
use crate::rule::Rule;

verus! {

/// Edge length of a workgroup, in cells.
pub const WORKGROUP_SIZE: u32 = 9;

/// A request to seed the grid anew. It stays raised until the scheduler has acted on it.
#[derive(Clone, Copy, PartialEq, Eq, Debug)]
pub struct ReInit(pub bool);

impl Default for ReInit {
    /// No request.
    fn default() -> (reinit: ReInit)
        ensures
            !reinit.0,
    {
        ReInit(false)
    }
}

/// The request as the scheduler gets to see it in this frame: raised if it was raised
/// before, or if the key for it has just been pressed.
pub fn extract_reinit(reinit: &ReInit, pressed: bool) -> (request: ReInit)
    ensures
        request.0 == (reinit.0 || pressed),
{
    ReInit(reinit.0 || pressed)
}

/// Whether a simulation step is due in this frame.
#[derive(Clone, Copy, PartialEq, Eq, Debug)]
pub struct DoUpdate(pub bool);

/// The time between two automatic steps, in nanoseconds. `None` stands for an endless
/// interval: no step is taken unless one is asked for by hand.
#[derive(Clone, Copy, PartialEq, Eq, Debug)]
pub struct UpdateTime(pub Option<u64>);

impl Default for UpdateTime {
    /// A tenth of a second.
    fn default() -> (update_time: UpdateTime)
        ensures
            update_time.0 == Some(100_000_000u64),
    {
        UpdateTime(Some(100_000_000))
    }
}

/// Whether a step is due at the time `elapsed`, when the last step was taken at
/// `last_update`: either one is asked for by hand, or more than the interval has passed.
pub open spec fn step_due(update_time: UpdateTime, manual: bool, elapsed: u64, last_update: u64) -> bool {
    manual || match update_time.0 {
        Some(interval) => elapsed - last_update > interval,
        None => false,
    }
}

/// Decides whether a step is due in this frame, and moves `last_update` to `elapsed`
/// when one is. All times are in nanoseconds since the start.
pub fn update_timer(
    update_time: &UpdateTime,
    manual: bool,
    elapsed: u64,
    last_update: &mut u64,
) -> (do_update: DoUpdate)
    ensures
        do_update.0 == step_due(*update_time, manual, elapsed, *old(last_update)),
        *final(last_update) == if do_update.0 {
            elapsed
        } else {
            *old(last_update)
        },
{
    let passed = match update_time.0 {
        Some(interval) => elapsed > *last_update && elapsed - *last_update > interval,
        None => false,
    };
    if passed || manual {
        *last_update = elapsed;
        DoUpdate(true)
    } else {
        DoUpdate(false)
    }
}

/// What the pipeline cache reports of a compute pipeline.
#[derive(Clone, Copy, PartialEq, Eq, Debug, Structural)]
pub enum PipelineStatus {
    /// Not compiled yet.
    Pending,
    /// Compiled and usable.
    Ready,
    /// Compilation failed.
    Failed,
}

/// The state of the scheduler.
#[derive(Clone, Copy, PartialEq, Eq, Debug, Structural)]
pub enum CAState {
    /// Waiting for the pipeline that seeds the grid.
    Loading,
    /// Seeding the grid, and waiting for the pipeline that steps the simulation.
    Init,
    /// Idle between two steps.
    Update,
    /// Running one step.
    UpdateRun,
}

/// A compute pass.
#[derive(Clone, Copy, PartialEq, Eq, Debug, Structural)]
pub enum Pass {
    /// Seeds the grid.
    Init,
    /// Computes the next generation.
    Update,
}

/// One submission to the device: the pass to run and the number of workgroups along
/// each of the three axes.
#[derive(Clone, Copy, PartialEq, Eq, Debug)]
pub struct Dispatch {
    pub pass: Pass,
    pub workgroups: (u32, u32, u32),
}

/// What the scheduler sees when it is evaluated in a frame.
pub struct Frame {
    /// State of the pipeline that seeds the grid.
    pub init_pipeline: PipelineStatus,
    /// State of the pipeline that steps the simulation.
    pub update_pipeline: PipelineStatus,
    /// Whether a step is due.
    pub do_update: bool,
    /// Whether a new seeding has been requested.
    pub reinit: bool,
}

/// The state that follows `state` when no new seeding is requested.
pub open spec fn advance(state: CAState, frame: Frame) -> CAState {
    match state {
        CAState::Loading => if frame.init_pipeline == PipelineStatus::Ready {
            CAState::Init
        } else {
            CAState::Loading
        },
        CAState::Init => if frame.update_pipeline == PipelineStatus::Ready {
            CAState::Update
        } else {
            CAState::Init
        },
        CAState::Update => if frame.do_update {
            CAState::UpdateRun
        } else {
            CAState::Update
        },
        CAState::UpdateRun => CAState::Update,
    }
}

/// The state that follows `state`: a requested seeding overrides every other transition.
pub open spec fn next_state(state: CAState, frame: Frame) -> CAState {
    if frame.reinit {
        CAState::Init
    } else {
        advance(state, frame)
    }
}

/// The pass that belongs to `state`, if any.
pub open spec fn pass_of(state: CAState) -> Option<Pass> {
    match state {
        CAState::Init => Some(Pass::Init),
        CAState::UpdateRun => Some(Pass::Update),
        _ => None,
    }
}

/// What the pipeline cache reports of the pipeline of `pass`.
pub open spec fn pipeline_of(
    pass: Pass,
    init_pipeline: PipelineStatus,
    update_pipeline: PipelineStatus,
) -> PipelineStatus {
    match pass {
        Pass::Init => init_pipeline,
        Pass::Update => update_pipeline,
    }
}

/// The pass that is run in a frame that the scheduler ends in `state`: the pass that
/// belongs to the state, if its pipeline is ready. A pass whose pipeline is not ready is
/// left out for this frame.
pub open spec fn pass_when(
    state: CAState,
    init_pipeline: PipelineStatus,
    update_pipeline: PipelineStatus,
) -> Option<Pass> {
    match pass_of(state) {
        Some(pass) => if pipeline_of(pass, init_pipeline, update_pipeline) == PipelineStatus::Ready {
            Some(pass)
        } else {
            None
        },
        None => None,
    }
}

/// Number of workgroups along one axis of a grid with `size` cells along each edge:
/// `size / WORKGROUP_SIZE`, rounded up.
pub open spec fn workgroup_count(size: u32) -> u32 {
    ((size + WORKGROUP_SIZE - 1) / (WORKGROUP_SIZE as int)) as u32
}

/// The submission of a frame that the scheduler ends in `state`, for a grid with `size`
/// cells along each edge: the pass that is run, if any, with the same number of
/// workgroups along each axis.
pub open spec fn dispatch_when(
    state: CAState,
    size: u32,
    init_pipeline: PipelineStatus,
    update_pipeline: PipelineStatus,
) -> Option<Dispatch> {
    match pass_when(state, init_pipeline, update_pipeline) {
        Some(pass) => Some(
            Dispatch {
                pass,
                workgroups: (workgroup_count(size), workgroup_count(size), workgroup_count(size)),
            },
        ),
        None => None,
    }
}

/// Number of workgroups along one axis of a grid with `size` cells along each edge: the
/// least number of workgroups that reach over all cells.
pub fn workgroups(size: u32) -> (count: u32)
    ensures
        count == workgroup_count(size),
        count * WORKGROUP_SIZE >= size,
        (count - 1) * WORKGROUP_SIZE < size,
{
    let whole = size / WORKGROUP_SIZE;
    if size % WORKGROUP_SIZE == 0 {
        whole
    } else {
        whole + 1
    }
}

/// The scheduler: a state machine that is evaluated once in each frame.
#[derive(Clone, Copy, PartialEq, Eq, Debug)]
pub struct DispatchCA {
    state: CAState,
}

impl View for DispatchCA {
    type V = CAState;

    closed spec fn view(&self) -> CAState {
        self.state
    }
}

impl Default for DispatchCA {
    /// A scheduler in its first state.
    fn default() -> (node: DispatchCA)
        ensures
            node@ == CAState::Loading,
    {
        DispatchCA { state: CAState::Loading }
    }
}

impl DispatchCA {
    /// The current state.
    pub fn state(&self) -> (state: CAState)
        ensures
            state == self@,
    {
        self.state
    }

    /// Evaluates the scheduler for one frame.
    ///
    /// The state moves on as [`next_state`] says, and a pending request for a new
    /// seeding is taken down.
    pub fn update(
        &mut self,
        init_pipeline: PipelineStatus,
        update_pipeline: PipelineStatus,
        do_update: &DoUpdate,
        reinit: &mut ReInit,
    )
        ensures
            final(self)@ == next_state(
                old(self)@,
                (Frame {
                    init_pipeline,
                    update_pipeline,
                    do_update: do_update.0,
                    reinit: old(reinit).0,
                }),
            ),
            !final(reinit).0,
    {
        match self.state {
            CAState::Loading => {
                if let PipelineStatus::Ready = init_pipeline {
                    self.state = CAState::Init;
                }
            },
            CAState::Init => {
                if let PipelineStatus::Ready = update_pipeline {
                    self.state = CAState::Update;
                }
            },
            CAState::Update => {
                if do_update.0 {
                    self.state = CAState::UpdateRun;
                }
            },
            CAState::UpdateRun => {
                self.state = CAState::Update;
            },
        }
        if reinit.0 {
            self.state = CAState::Init;
            reinit.0 = false;
        }
    }

    /// The submission of this frame: the pass that belongs to the current state, over the
    /// whole grid of `rule`.
    ///
    /// There is none while the scheduler waits or idles, and none as long as the
    /// pipeline of the pass is not ready: the pass is then left out for this frame, and
    /// tried again in the next frame that the scheduler ends in the same state.
    pub fn run(
        &self,
        rule: &Rule,
        init_pipeline: PipelineStatus,
        update_pipeline: PipelineStatus,
    ) -> (dispatch: Option<Dispatch>)
        ensures
            dispatch == dispatch_when(self@, rule.size, init_pipeline, update_pipeline),
    {
        let pass = match self.state {
            CAState::Init => Pass::Init,
            CAState::UpdateRun => Pass::Update,
            _ => {
                return None;
            },
        };
        let pipeline = match pass {
            Pass::Init => init_pipeline,
            Pass::Update => update_pipeline,
        };
        match pipeline {
            PipelineStatus::Ready => {
                let wg: u32 = workgroups(rule.size);
                Some(Dispatch { pass, workgroups: (wg, wg, wg) })
            },
            _ => None,
        }
    }
}

} // verus!
