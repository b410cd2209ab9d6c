//! Upload gating: which results are worth sending to the origin server.
use vstd::prelude::*;

verus! {

/// A score qualifies for upload when no best score is on record, or when it is
/// within roughly ten percent plus five of the best known score.
pub open spec fn score_good_enough(solution_score: u32, best_score: Option<u32>) -> bool {
    match best_score {
        None => true,
        Some(best) => (solution_score - best - 5) * 10 < best,
    }
}

/// Decides whether a solution of the given score should be uploaded when no
/// solver identity is registered.
pub fn is_score_good_enough_for_upload(solution_score: u32, best_score: Option<u32>) -> (r: bool)
    ensures
        r == score_good_enough(solution_score, best_score),
{
    if let Some(best) = best_score {
        let larger_than_score: i64 = solution_score as i64 - best as i64;
        (larger_than_score - 5) * 10 < best as i64
    } else {
        true
    }
}

/// Whether a serialized flag would be omitted: only a set flag is carried.
pub fn is_false(b: &bool) -> (r: bool)
    ensures
        r == !*b,
{
    !*b
}

/// Whether a result is uploaded: never with uploads suppressed; always
/// with a registered solver identity; otherwise only a feasible solution
/// whose score is good enough against the best known one.
pub open spec fn upload_decision_spec(
    no_upload: bool,
    has_solver_uuid: bool,
    result: crate::executor::SolverResult,
    best_score: Option<u32>,
) -> bool {
    if no_upload {
        false
    } else if has_solver_uuid {
        true
    } else {
        match result {
            crate::executor::SolverResult::Valid { data } => score_good_enough(
                data@.len() as u32,
                best_score,
            ),
            _ => false,
        }
    }
}

/// Decides whether a job's result is uploaded to the origin.
pub fn should_upload(
    no_upload: bool,
    has_solver_uuid: bool,
    result: &crate::executor::SolverResult,
    best_score: Option<u32>,
) -> (r: bool)
    requires
        result matches crate::executor::SolverResult::Valid { data } ==> data@.len() <= u32::MAX,
    ensures
        r == upload_decision_spec(no_upload, has_solver_uuid, *result, best_score),
{
    if no_upload {
        return false;
    }
    if has_solver_uuid {
        return true;
    }
    match result {
        crate::executor::SolverResult::Valid { data } => is_score_good_enough_for_upload(
            data.len() as u32,
            best_score,
        ),
        _ => false,
    }
}

} // verus!
