use stride_runner_domset::executor::{
    resolve_wait, total_budget_ms, ChildExitCode, SolverResult, WaitVerdict,
};
use stride_runner_domset::is_score_good_enough_for_upload;
use stride_runner_domset::job::{
    reported_as_failure, should_delete_files, to_result_type, JobResultState,
};
use stride_runner_domset::upload::{is_false, should_upload};

#[test]
fn upload_gating_thresholds() {
    // best_known=100, score=110: (110-100-5)*10 = 50 < 100, so upload.
    assert!(is_score_good_enough_for_upload(110, Some(100)));
    // score=120: (120-100-5)*10 = 150, not below 100, so no upload.
    assert!(!is_score_good_enough_for_upload(120, Some(100)));
    // No best known score: always good enough.
    assert!(is_score_good_enough_for_upload(99999, None));
    // A score at or below best is always good enough.
    assert!(is_score_good_enough_for_upload(100, Some(100)));
    assert!(is_score_good_enough_for_upload(3, Some(100)));
}

#[test]
fn upload_decision() {
    let good = SolverResult::Valid { data: vec![1, 2] };
    let too_big = SolverResult::Valid { data: (1..=120).collect() };
    // Suppressed uploads win over everything.
    assert!(!should_upload(true, true, &good, None));
    // A registered solver identity uploads every result.
    assert!(should_upload(false, true, &too_big, Some(100)));
    assert!(should_upload(false, true, &SolverResult::Timeout, Some(100)));
    // Otherwise only feasible solutions with a good enough score go.
    assert!(should_upload(false, false, &good, Some(100)));
    assert!(!should_upload(false, false, &too_big, Some(100)));
    assert!(!should_upload(false, false, &SolverResult::Infeasible, Some(100)));
}

#[test]
fn classification_against_best_known() {
    let five = SolverResult::Valid { data: vec![1, 2, 3, 4, 5] };
    assert_eq!(
        to_result_type(&five, Some(3)),
        JobResultState::Suboptimal { score: 5, best_known: 3 }
    );
    assert_eq!(
        to_result_type(&five, Some(5)),
        JobResultState::BestKnown { score: 5 }
    );
    assert_eq!(
        to_result_type(&five, None),
        JobResultState::BestKnown { score: 5 }
    );
    assert_eq!(to_result_type(&SolverResult::Timeout, Some(3)), JobResultState::Timeout);
    assert_eq!(
        to_result_type(&SolverResult::IncompleteOutput, None),
        JobResultState::Incomplete
    );
    assert_eq!(to_result_type(&SolverResult::Infeasible, None), JobResultState::Infeasible);
    assert_eq!(to_result_type(&SolverResult::SyntaxError, None), JobResultState::Error);
}

#[test]
fn run_failure_policy() {
    assert!(!reported_as_failure(JobResultState::BestKnown { score: 1 }, true));
    assert!(!reported_as_failure(JobResultState::Incomplete, true));
    assert!(!reported_as_failure(JobResultState::Timeout, true));
    assert!(reported_as_failure(JobResultState::Infeasible, false));
    assert!(reported_as_failure(JobResultState::Error, false));
    let sub = JobResultState::Suboptimal { score: 5, best_known: 3 };
    assert!(!reported_as_failure(sub, false));
    assert!(reported_as_failure(sub, true));
}

#[test]
fn wait_verdicts() {
    // A clean exit before the soft deadline proceeds to verification.
    assert_eq!(
        resolve_wait(ChildExitCode::BeforeTimeout { success: true }),
        WaitVerdict::Proceed
    );
    // A failing exit before the soft deadline is an error.
    assert_eq!(
        resolve_wait(ChildExitCode::BeforeTimeout { success: false }),
        WaitVerdict::Error
    );
    // A solver that catches the soft terminate and exits cleanly within the
    // grace period is verified normally, not classified as a timeout.
    assert_eq!(
        resolve_wait(ChildExitCode::WithinGrace { success: true }),
        WaitVerdict::Proceed
    );
    assert_eq!(
        resolve_wait(ChildExitCode::WithinGrace { success: false }),
        WaitVerdict::Timeout
    );
    // No exit until the hard kill is a timeout.
    assert_eq!(resolve_wait(ChildExitCode::Timeout), WaitVerdict::Timeout);
}

#[test]
fn child_budget() {
    // With T=2 and G=1 the child is gone after at most three seconds.
    assert_eq!(total_budget_ms(2000, 1000), 3000);
}

#[test]
fn file_deletion_policy() {
    let best = JobResultState::BestKnown { score: 1 };
    let sub = JobResultState::Suboptimal { score: 5, best_known: 3 };
    assert!(should_delete_files(best, false, false));
    assert!(!should_delete_files(best, false, true));
    assert!(should_delete_files(sub, false, false));
    assert!(!should_delete_files(sub, true, false));
    assert!(!should_delete_files(JobResultState::Timeout, false, false));
    assert!(!should_delete_files(JobResultState::Error, false, false));
}

#[test]
fn false_flag_helper() {
    assert!(is_false(&false));
    assert!(!is_false(&true));
}
