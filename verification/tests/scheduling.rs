use stride_runner_domset::job::{JobResult, JobResultState, JobState, AtomicJobState};
use stride_runner_domset::runner::{AtomicRunnerState, RunnerState};
use stride_runner_domset::schedule::{cycle_sleep_ms, ProgressCounters, Scheduler};

#[test]
fn scheduler_admits_in_order_and_respects_bound() {
    let mut s = Scheduler::new(vec![3, 1, 2], 2, false);
    assert_eq!(s.try_admit(), Some(3));
    assert_eq!(s.try_admit(), Some(1));
    // Both slots are taken: nothing more is admitted.
    assert_eq!(s.running_count(), 2);
    assert!(!s.can_admit());
    assert_eq!(s.try_admit(), None);
    assert!(s.is_in_flight(3));
    let result = JobResult { state: JobResultState::BestKnown { score: 4 }, runtime_ms: 1000 };
    s.on_job_finished(3, &result);
    assert!(!s.is_in_flight(3));
    assert_eq!(s.try_admit(), Some(2));
    assert!(!s.is_done());
    s.on_job_finished(2, &result);
    s.on_job_finished(1, &result);
    assert!(s.is_done());
    assert!(!s.any_failure());
}

#[test]
fn one_summary_row_per_instance() {
    let mut s = Scheduler::new(vec![10, 20], 1, false);
    let mut rows: Vec<Vec<u8>> = Vec::new();
    while !s.is_done() {
        if let Some(iid) = s.try_admit() {
            let result = JobResult {
                state: JobResultState::BestKnown { score: 1 },
                runtime_ms: 2000,
            };
            rows.push(s.on_job_finished(iid, &result));
        }
    }
    assert_eq!(rows.len(), 2);
    assert_eq!(rows[0], b"10,2,best,1,1\n".to_vec());
    assert_eq!(rows[1], b"20,2,best,1,1\n".to_vec());
}

#[test]
fn failures_mark_the_run() {
    let result_err = JobResult { state: JobResultState::Infeasible, runtime_ms: 10 };
    let result_timeout = JobResult { state: JobResultState::Timeout, runtime_ms: 10 };

    let mut s = Scheduler::new(vec![1], 4, false);
    s.try_admit();
    s.on_job_finished(1, &result_timeout);
    assert!(!s.any_failure());

    let mut s2 = Scheduler::new(vec![1], 4, false);
    s2.try_admit();
    s2.on_job_finished(1, &result_err);
    assert!(s2.any_failure());

    // A suboptimal result fails the run only under suboptimal-is-error.
    let sub = JobResult {
        state: JobResultState::Suboptimal { score: 5, best_known: 3 },
        runtime_ms: 10,
    };
    let mut s3 = Scheduler::new(vec![1], 4, false);
    s3.try_admit();
    s3.on_job_finished(1, &sub);
    assert!(!s3.any_failure());
    let mut s4 = Scheduler::new(vec![1], 4, true);
    s4.try_admit();
    s4.on_job_finished(1, &sub);
    assert!(s4.any_failure());
}

#[test]
fn cycle_sleep_lengths() {
    assert_eq!(cycle_sleep_ms(true), 10);
    assert_eq!(cycle_sleep_ms(false), 100);
}

#[test]
fn progress_counters() {
    let mut c = ProgressCounters::new();
    c.finish_job(JobResultState::BestKnown { score: 1 });
    c.finish_job(JobResultState::Timeout);
    c.finish_job(JobResultState::Timeout);
    c.finish_job(JobResultState::Infeasible);
    assert_eq!(c.num_optimal, 1);
    assert_eq!(c.num_timeout, 2);
    assert_eq!(c.num_infeasible, 1);
    assert_eq!(c.num_error, 0);
}

#[test]
fn job_states_move_forward() {
    let mut cell = AtomicJobState::new(JobState::Idle);
    assert_eq!(cell.load(), JobState::Idle);
    cell.store(JobState::Fetching);
    cell.store(JobState::Starting);
    cell.store(JobState::Running);
    cell.store(JobState::PostProcessing);
    cell.store(JobState::Finished);
    assert_eq!(cell.load(), JobState::Finished);
}

#[test]
fn runner_states_move_forward() {
    let mut cell = AtomicRunnerState::new(RunnerState::Idle);
    cell.store(RunnerState::Fetching);
    assert_eq!(cell.load(), RunnerState::Fetching);
}
