//! One instance's lifecycle: the forward-only state machine, and the
//! classification of a solver outcome against the best known score.
use vstd::prelude::*;

use crate::executor::SolverResult;

verus! {

/// The phase a job is in. Transitions only ever move forward.
#[derive(PartialEq, Eq, Structural, Debug, Clone, Copy)]
pub enum JobState {
    Idle,
    Fetching,
    Starting,
    Running,
    PostProcessing,
    Finished,
}

/// The position of a state in the canonical forward order.
pub open spec fn state_index(s: JobState) -> nat {
    match s {
        JobState::Idle => 0,
        JobState::Fetching => 1,
        JobState::Starting => 2,
        JobState::Running => 3,
        JobState::PostProcessing => 4,
        JobState::Finished => 5,
    }
}

/// The canonical order of job states.
pub open spec fn job_state_order() -> Seq<JobState> {
    seq![
        JobState::Idle,
        JobState::Fetching,
        JobState::Starting,
        JobState::Running,
        JobState::PostProcessing,
        JobState::Finished,
    ]
}

/// A state cell holding one `JobState`, readable while a job runs. Writes may
/// only advance the state one step along the canonical order.
pub struct AtomicJobState {
    state: JobState,
}

impl AtomicJobState {
    pub closed spec fn view(&self) -> JobState {
        self.state
    }

    pub fn new(state: JobState) -> (r: Self)
        ensures
            r@ == state,
    {
        AtomicJobState { state }
    }

    pub fn load(&self) -> (r: JobState)
        ensures
            r == self@,
    {
        self.state
    }

    pub fn store(&mut self, state: JobState)
        requires
            state_index(state) == state_index(old(self)@) + 1,
        ensures
            final(self)@ == state,
    {
        self.state = state;
    }
}

proof fn lemma_state_at(trace: Seq<JobState>, i: int)
    requires
        trace.len() >= 1,
        trace[0] == JobState::Idle,
        forall|j: int|
            0 <= j < trace.len() - 1 ==> state_index(#[trigger] trace[j + 1]) == state_index(
                trace[j],
            ) + 1,
        0 <= i < trace.len(),
    ensures
        state_index(trace[i]) == i,
        i < 6,
        trace[i] == job_state_order()[i],
    decreases i,
{
    if i > 0 {
        lemma_state_at(trace, i - 1);
        assert(state_index(trace[(i - 1) + 1]) == state_index(trace[i - 1]) + 1);
    }
}

/// A job's state history is a prefix of
/// Idle, Fetching, Starting, Running, PostProcessing, Finished: any state
/// sequence that starts at Idle and advances one step at a time is an initial
/// segment of that order.
pub proof fn lemma_state_trace_is_prefix(trace: Seq<JobState>)
    requires
        trace.len() >= 1,
        trace[0] == JobState::Idle,
        forall|j: int|
            0 <= j < trace.len() - 1 ==> state_index(#[trigger] trace[j + 1]) == state_index(
                trace[j],
            ) + 1,
    ensures
        trace.len() <= job_state_order().len(),
        trace =~= job_state_order().take(trace.len() as int),
{
    lemma_state_at(trace, trace.len() - 1);
    assert forall|i: int| 0 <= i < trace.len() implies trace[i] == job_state_order().take(
        trace.len() as int,
    )[i] by {
        lemma_state_at(trace, i);
    }
    assert(trace =~= job_state_order().take(trace.len() as int));
}

/// How a finished job is recorded.
#[derive(Debug, Clone, Copy, PartialEq, Eq, Structural)]
pub enum JobResultState {
    /// A feasible solution no worse than the best known score.
    BestKnown { score: u32 },
    /// A feasible solution worse than the best known score.
    Suboptimal { score: u32, best_known: u32 },
    Infeasible,
    Incomplete,
    Error,
    Timeout,
}

impl JobResultState {
    pub fn is_optimal(&self) -> (r: bool)
        ensures
            r == (self is BestKnown),
    {
        matches!(self, JobResultState::BestKnown { .. })
    }

    pub fn is_suboptimal(&self) -> (r: bool)
        ensures
            r == (self is Suboptimal),
    {
        matches!(self, JobResultState::Suboptimal { .. })
    }
}

/// A finished job: its classification and the child's wall-clock runtime in
/// milliseconds.
pub struct JobResult {
    pub state: JobResultState,
    pub runtime_ms: u64,
}

/// How a solver outcome is recorded, given the best known score: a feasible
/// solution scores by its cardinality and is best-known when no best score is
/// recorded or it does not exceed it; other outcomes map directly.
pub open spec fn classify_spec(result: SolverResult, best_score: Option<u32>) -> JobResultState {
    match result {
        SolverResult::Valid { data } => {
            let score = data@.len() as u32;
            match best_score {
                Some(best) => if data@.len() <= best {
                    JobResultState::BestKnown { score }
                } else {
                    JobResultState::Suboptimal { score, best_known: best }
                },
                None => JobResultState::BestKnown { score },
            }
        },
        SolverResult::ValidCached { .. } => arbitrary(),
        SolverResult::Infeasible => JobResultState::Infeasible,
        SolverResult::SyntaxError => JobResultState::Error,
        SolverResult::Timeout => JobResultState::Timeout,
        SolverResult::IncompleteOutput => JobResultState::Incomplete,
    }
}

/// Classifies a solver outcome against the best known score.
pub fn to_result_type(result: &SolverResult, best_score: Option<u32>) -> (r: JobResultState)
    requires
        !(result is ValidCached),
        result matches SolverResult::Valid { data } ==> data@.len() <= u32::MAX,
    ensures
        r == classify_spec(*result, best_score),
{
    match result {
        SolverResult::Valid { data } => {
            let score = data.len() as u32;
            match best_score {
                Some(best) => {
                    if score <= best {
                        JobResultState::BestKnown { score }
                    } else {
                        JobResultState::Suboptimal { score, best_known: best }
                    }
                },
                None => JobResultState::BestKnown { score },
            }
        },
        SolverResult::ValidCached => JobResultState::Error,
        SolverResult::Infeasible => JobResultState::Infeasible,
        SolverResult::SyntaxError => JobResultState::Error,
        SolverResult::Timeout => JobResultState::Timeout,
        SolverResult::IncompleteOutput => JobResultState::Incomplete,
    }
}

/// Whether a job outcome counts as a failure for the run's exit status:
/// infeasible and error always do; a suboptimal result only when the run
/// treats suboptimal as an error.
pub open spec fn reported_as_failure_spec(state: JobResultState, suboptimal_is_error: bool) -> bool {
    match state {
        JobResultState::BestKnown { .. } => false,
        JobResultState::Suboptimal { .. } => suboptimal_is_error,
        JobResultState::Incomplete => false,
        JobResultState::Timeout => false,
        JobResultState::Infeasible => true,
        JobResultState::Error => true,
    }
}

/// Decides whether a job outcome fails the run.
pub fn reported_as_failure(state: JobResultState, suboptimal_is_error: bool) -> (r: bool)
    ensures
        r == reported_as_failure_spec(state, suboptimal_is_error),
{
    match state {
        JobResultState::BestKnown { .. } => false,
        JobResultState::Suboptimal { .. } => suboptimal_is_error,
        JobResultState::Incomplete => false,
        JobResultState::Timeout => false,
        JobResultState::Infeasible => true,
        JobResultState::Error => true,
    }
}

/// Whether the child's log files are deleted after a job: only successful
/// outcomes, and only when logs are not kept on success.
pub open spec fn delete_files_spec(
    state: JobResultState,
    suboptimal_is_error: bool,
    keep_logs_on_success: bool,
) -> bool {
    !keep_logs_on_success && (state is BestKnown || (state is Suboptimal && !suboptimal_is_error))
}

/// Decides whether a finished job's child files are deleted.
pub fn should_delete_files(
    state: JobResultState,
    suboptimal_is_error: bool,
    keep_logs_on_success: bool,
) -> (r: bool)
    ensures
        r == delete_files_spec(state, suboptimal_is_error, keep_logs_on_success),
{
    if keep_logs_on_success {
        return false;
    }
    let optimal = matches!(state, JobResultState::BestKnown { .. });
    let suboptimal = matches!(state, JobResultState::Suboptimal { .. });
    optimal || (suboptimal && !suboptimal_is_error)
}

} // verus!
