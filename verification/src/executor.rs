//! Running one solver child: its configuration, the classification of how
//! the child's wait ended under the soft and hard deadlines, and the
//! verification of what it wrote.
use vstd::prelude::*;

use crate::ids::IId;
use crate::pace::GraphParseError;
use crate::solution::{evaluate_solution, SolutionVerdict};
use crate::text::{dec_rep, push_bytes, str_bytes, u32_to_dec};
use vstd::string::StringSliceAdditionalSpecFns;

verus! {

/// What a solver run produced.
#[derive(Debug, PartialEq, Eq)]
pub enum SolverResult {
    /// A feasible dominating set, repeated indices dropped.
    Valid { data: Vec<u32> },
    /// A feasible solution already known to the origin; never produced by the
    /// executor itself.
    ValidCached,
    Infeasible,
    SyntaxError,
    Timeout,
    IncompleteOutput,
}

impl SolverResult {
    /// The score of a feasible solution: its cardinality.
    pub fn score(&self) -> (r: Option<u32>)
        requires
            self matches SolverResult::Valid { data } ==> data@.len() <= u32::MAX,
        ensures
            match self {
                SolverResult::Valid { data } => r == Some(data@.len() as u32),
                _ => r is None,
            },
    {
        match self {
            SolverResult::Valid { data } => Some(data.len() as u32),
            _ => None,
        }
    }
}

/// How waiting for the child ended: exit before the soft deadline, exit
/// during the grace period (with the exit's success recorded), or no exit
/// until the hard kill.
#[derive(Clone, Copy, PartialEq, Eq, Structural, Debug)]
pub enum ChildExitCode {
    BeforeTimeout { success: bool },
    WithinGrace { success: bool },
    Timeout,
}

/// What follows from a wait outcome: carry on to verification, record a
/// timeout, or record an error.
#[derive(Clone, Copy, PartialEq, Eq, Structural, Debug)]
pub enum WaitVerdict {
    /// The child exited in time and successfully; its output is verified.
    Proceed,
    /// The child missed the hard deadline, or exited during grace with a
    /// failure status.
    Timeout,
    /// The child exited before the soft deadline with a failure status.
    Error,
}

/// The verdict on a wait outcome: an exit before the soft deadline proceeds
/// when successful and errs otherwise; an exit within the grace period
/// proceeds only when successful, else counts as a timeout; no exit is a
/// timeout.
pub open spec fn wait_verdict_spec(code: ChildExitCode) -> WaitVerdict {
    match code {
        ChildExitCode::BeforeTimeout { success } => if success {
            WaitVerdict::Proceed
        } else {
            WaitVerdict::Error
        },
        ChildExitCode::WithinGrace { success } => if success {
            WaitVerdict::Proceed
        } else {
            WaitVerdict::Timeout
        },
        ChildExitCode::Timeout => WaitVerdict::Timeout,
    }
}

/// Classifies how the wait for the child ended.
pub fn resolve_wait(code: ChildExitCode) -> (r: WaitVerdict)
    ensures
        r == wait_verdict_spec(code),
{
    match code {
        ChildExitCode::BeforeTimeout { success } => {
            if success {
                WaitVerdict::Proceed
            } else {
                WaitVerdict::Error
            }
        },
        ChildExitCode::WithinGrace { success } => {
            if success {
                WaitVerdict::Proceed
            } else {
                WaitVerdict::Timeout
            }
        },
        ChildExitCode::Timeout => WaitVerdict::Timeout,
    }
}

/// The whole time budget of one child in milliseconds: soft deadline plus
/// grace.
pub fn total_budget_ms(timeout_ms: u64, grace_ms: u64) -> (r: u64)
    requires
        timeout_ms + grace_ms <= u64::MAX,
    ensures
        r == timeout_ms + grace_ms,
{
    timeout_ms + grace_ms
}

/// Verifies a child's output against the instance it was given, after a
/// successful exit.
pub fn verify_output(instance: &[u8], output: &[u8]) -> (r: Result<SolverResult, GraphParseError>)
    ensures
        match crate::pace::graph_parse_result(instance@) {
            Err(e) => r == Err::<SolverResult, _>(e),
            Ok((n, edges)) => match crate::solution::solution_parse_result(n, output@) {
                Err(crate::solution::SolutionParseError::Incomplete) => r == Ok::<
                    _,
                    GraphParseError,
                >(SolverResult::IncompleteOutput),
                Err(crate::solution::SolutionParseError::Syntax) => r == Ok::<
                    _,
                    GraphParseError,
                >(SolverResult::SyntaxError),
                Ok(vals) => {
                    &&& crate::solution::dominates(n, edges, crate::solution::dedup(vals)) ==> (
                    r matches Ok(SolverResult::Valid { data }) && data@
                        == crate::solution::dedup(vals))
                    &&& !crate::solution::dominates(n, edges, crate::solution::dedup(vals))
                        ==> r == Ok::<_, GraphParseError>(SolverResult::Infeasible)
                },
            },
        },
{
    match evaluate_solution(instance, output)? {
        SolutionVerdict::Valid(data) => Ok(SolverResult::Valid { data }),
        SolutionVerdict::Infeasible => Ok(SolverResult::Infeasible),
        SolutionVerdict::SyntaxError => Ok(SolverResult::SyntaxError),
        SolutionVerdict::IncompleteOutput => Ok(SolverResult::IncompleteOutput),
    }
}

/// The configuration and record of one solver child. Spawning, signalling
/// and killing are the caller's work; this holds what they need and what
/// they measured.
pub struct SolverExecutor {
    /// Directory that holds the per-job files, without a trailing slash.
    pub working_dir: Vec<u8>,
    /// Path of the solver binary.
    pub solver_path: Vec<u8>,
    /// Extra arguments handed to the solver.
    pub args: Vec<Vec<u8>>,
    /// Environment handed to the solver.
    pub env: Vec<(Vec<u8>, Vec<u8>)>,
    /// Soft deadline in milliseconds.
    pub timeout_ms: u64,
    /// Grace period in milliseconds.
    pub grace_ms: u64,
    /// Wall-clock runtime of the child, once it has run.
    pub runtime_ms: Option<u64>,
    pub instance_id: IId,
    /// The instance body the child reads.
    pub instance_data: Vec<u8>,
}

/// The path of a per-job file: `<workdir>/iid<IID>.<suffix>`.
pub open spec fn job_file_spec(workdir: Seq<u8>, iid: u32, suffix: Seq<u8>) -> Seq<u8> {
    workdir + seq!['/' as u8] + "iid".spec_bytes() + dec_rep(iid as nat) + seq!['.' as u8]
        + suffix
}

impl SolverExecutor {
    /// The wall-clock runtime of the child, if it has run.
    pub fn runtime(&self) -> (r: Option<u64>)
        ensures
            r == self.runtime_ms,
    {
        self.runtime_ms
    }

    /// The path of one of this job's files, named by instance id and suffix.
    pub fn filename(&self, suffix: &[u8]) -> (r: Vec<u8>)
        ensures
            r@ == job_file_spec(self.working_dir@, self.instance_id.0, suffix@),
    {
        let mut out: Vec<u8> = Vec::new();
        let ghost e0 = out@;
        push_bytes(&mut out, self.working_dir.as_slice());
        let mut slash: Vec<u8> = Vec::new();
        slash.push(47);
        push_bytes(&mut out, slash.as_slice());
        let tag = str_bytes("iid");
        push_bytes(&mut out, tag.as_slice());
        let digits = u32_to_dec(self.instance_id.0);
        push_bytes(&mut out, digits.as_slice());
        let mut dot: Vec<u8> = Vec::new();
        dot.push(46);
        push_bytes(&mut out, dot.as_slice());
        push_bytes(&mut out, suffix);
        proof {
            assert(slash@ =~= seq!['/' as u8]);
            assert(dot@ =~= seq!['.' as u8]);
            assert(out@ =~= job_file_spec(self.working_dir@, self.instance_id.0, suffix@));
        }
        out
    }
}

} // verus!
