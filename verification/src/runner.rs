//! The older per-instance runner's state machine, kept alongside the job:
//! the same forward-only phases and a coarser result without scores.
use vstd::prelude::*;

verus! {

/// The phase a runner is in.
#[derive(PartialEq, Eq, Structural, Debug, Clone, Copy)]
pub enum RunnerState {
    Idle,
    Fetching,
    Starting,
    Running,
    PostProcessing,
    Finished,
}

/// The position of a state in the canonical forward order.
pub open spec fn runner_state_index(s: RunnerState) -> nat {
    match s {
        RunnerState::Idle => 0,
        RunnerState::Fetching => 1,
        RunnerState::Starting => 2,
        RunnerState::Running => 3,
        RunnerState::PostProcessing => 4,
        RunnerState::Finished => 5,
    }
}

/// A state cell holding one `RunnerState`. Writes may only advance the
/// state one step.
pub struct AtomicRunnerState {
    state: RunnerState,
}

impl AtomicRunnerState {
    pub closed spec fn view(&self) -> RunnerState {
        self.state
    }

    pub fn new(state: RunnerState) -> (r: Self)
        ensures
            r@ == state,
    {
        AtomicRunnerState { state }
    }

    pub fn load(&self) -> (r: RunnerState)
        ensures
            r == self@,
    {
        self.state
    }

    pub fn store(&mut self, state: RunnerState)
        requires
            runner_state_index(state) == runner_state_index(old(self)@) + 1,
        ensures
            final(self)@ == state,
    {
        self.state = state;
    }
}

/// How a finished runner is recorded.
#[derive(Debug, Clone, Copy, PartialEq, Eq, Structural)]
pub enum RunnerResult {
    Optimal,
    Suboptimal,
    Infeasible,
    Incomplete,
    Error,
    Timeout,
}

} // verus!
