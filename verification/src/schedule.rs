//! Bounded-parallelism scheduling: admission control over an ordered
//! instance list, accounting of in-flight jobs, and the run's aggregate
//! outcome.
use vstd::prelude::*;
use vstd::multiset::Multiset;
use vstd::seq_lib::group_seq_properties;

use crate::job::{reported_as_failure, reported_as_failure_spec, JobResult, JobResultState};
use crate::summary::{summary_line, summary_line_spec};
use crate::ids::IId;

verus! {

broadcast use group_seq_properties;

/// Sleep between scheduler cycles, in milliseconds: short while slots are
/// free, longer when saturated.
pub open spec fn cycle_sleep_spec(slots_free: bool) -> u64 {
    if slots_free {
        10
    } else {
        100
    }
}

/// How long the scheduler sleeps before its next cycle.
pub fn cycle_sleep_ms(slots_free: bool) -> (r: u64)
    ensures
        r == cycle_sleep_spec(slots_free),
{
    if slots_free {
        10
    } else {
        100
    }
}

/// The position of the first occurrence of `x` in a vector that holds it.
fn index_of_u32(v: &Vec<u32>, x: u32) -> (idx: usize)
    requires
        v@.contains(x),
    ensures
        idx < v@.len(),
        v@[idx as int] == x,
{
    let n = v.len();
    let mut i: usize = 0;
    while i < n
        invariant
            n == v@.len(),
            v@.contains(x),
            0 <= i <= n,
            forall|j: int| 0 <= j < i ==> v@[j] != x,
        decreases n - i,
    {
        if v[i] == x {
            return i;
        }
        i += 1;
    }
    proof {
        let w = choose|w: int| 0 <= w < v@.len() && v@[w] == x;
        assert(false);
    }
    0
}

/// The driver of one run: hands out instance ids in list order, at most
/// `parallel` at a time, and records each finished job exactly once.
pub struct Scheduler {
    iids: Vec<u32>,
    next: usize,
    running: Vec<u32>,
    logged: Vec<u32>,
    parallel: usize,
    suboptimal_is_error: bool,
    failed: bool,
}

impl Scheduler {
    /// The instance list this run works through.
    pub closed spec fn instance_list(&self) -> Seq<u32> {
        self.iids@
    }

    /// The ids handed out so far, a prefix of the instance list.
    pub closed spec fn admitted(&self) -> Seq<u32> {
        self.iids@.take(self.next as int)
    }

    /// The ids of jobs started and not yet recorded.
    pub closed spec fn in_flight(&self) -> Seq<u32> {
        self.running@
    }

    /// The ids of recorded jobs, in completion order.
    pub closed spec fn recorded(&self) -> Seq<u32> {
        self.logged@
    }

    /// The parallelism bound.
    pub closed spec fn bound(&self) -> usize {
        self.parallel
    }

    /// Whether any recorded job failed the run.
    pub closed spec fn run_failed(&self) -> bool {
        self.failed
    }

    pub closed spec fn subopt_is_error(&self) -> bool {
        self.suboptimal_is_error
    }

    /// The scheduler's invariant: the bound is positive and never exceeded,
    /// and every admitted id is either in flight or recorded: the recorded
    /// and in-flight ids together are exactly the admitted prefix of the
    /// list.
    pub closed spec fn wf(&self) -> bool {
        &&& self.parallel >= 1
        &&& self.next <= self.iids@.len()
        &&& self.running@.len() <= self.parallel
        &&& self.logged@.to_multiset().add(self.running@.to_multiset()) == self.iids@.take(
            self.next as int,
        ).to_multiset()
    }

    /// A fresh scheduler over an instance list.
    pub fn new(iids: Vec<u32>, parallel: usize, suboptimal_is_error: bool) -> (r: Self)
        requires
            parallel >= 1,
        ensures
            r.wf(),
            r.instance_list() == iids@,
            r.admitted() == Seq::<u32>::empty(),
            r.in_flight() == Seq::<u32>::empty(),
            r.recorded() == Seq::<u32>::empty(),
            r.bound() == parallel,
            !r.run_failed(),
            r.subopt_is_error() == suboptimal_is_error,
    {
        let r = Scheduler {
            iids,
            next: 0,
            running: Vec::new(),
            logged: Vec::new(),
            parallel,
            suboptimal_is_error,
            failed: false,
        };
        proof {
            assert(r.iids@.take(0) =~= Seq::<u32>::empty());
            assert(r.logged@.to_multiset().add(r.running@.to_multiset())
                =~= r.iids@.take(0).to_multiset());
        }
        r
    }

    /// The number of jobs in flight.
    pub fn running_count(&self) -> (r: usize)
        ensures
            r == self.in_flight().len(),
    {
        self.running.len()
    }

    /// Whether a slot is free and input remains.
    pub fn can_admit(&self) -> (r: bool)
        requires
            self.wf(),
        ensures
            r == (self.in_flight().len() < self.bound() && self.admitted().len()
                < self.instance_list().len()),
    {
        proof {
            assert(self.admitted().len() == self.next);
        }
        self.running.len() < self.parallel && self.next < self.iids.len()
    }

    /// Hands out the next instance id when a slot is free and input remains.
    /// The caller starts a job for it.
    pub fn try_admit(&mut self) -> (r: Option<u32>)
        requires
            old(self).wf(),
        ensures
            final(self).wf(),
            final(self).instance_list() == old(self).instance_list(),
            final(self).bound() == old(self).bound(),
            final(self).recorded() == old(self).recorded(),
            final(self).run_failed() == old(self).run_failed(),
            final(self).subopt_is_error() == old(self).subopt_is_error(),
            match r {
                Some(iid) => {
                    &&& old(self).in_flight().len() < old(self).bound()
                    &&& old(self).admitted().len() < old(self).instance_list().len()
                    &&& iid == old(self).instance_list()[old(self).admitted().len() as int]
                    &&& final(self).admitted() == old(self).admitted().push(iid)
                    &&& final(self).in_flight() == old(self).in_flight().push(iid)
                },
                None => {
                    &&& final(self).admitted() == old(self).admitted()
                    &&& final(self).in_flight() == old(self).in_flight()
                    &&& (old(self).in_flight().len() >= old(self).bound() || old(
                        self,
                    ).admitted().len() == old(self).instance_list().len())
                },
            },
    {
        proof {
            assert(self.admitted().len() == self.next);
        }
        if self.running.len() < self.parallel && self.next < self.iids.len() {
            let iid = self.iids[self.next];
            self.next += 1;
            self.running.push(iid);
            proof {
                assert(self.iids@.take(self.next as int) =~= old(self).iids@.take(
                    old(self).next as int,
                ).push(iid));
                assert(self.logged@.to_multiset().add(self.running@.to_multiset())
                    =~= self.iids@.take(self.next as int).to_multiset());
            }
            Some(iid)
        } else {
            None
        }
    }

    /// Whether `iid` is one of the jobs in flight.
    pub fn is_in_flight(&self, iid: u32) -> (r: bool)
        ensures
            r == self.in_flight().contains(iid),
    {
        crate::solution::contains_u32(&self.running, iid)
    }

    /// Records one finished job: the job leaves the in-flight set, its id and
    /// outcome join the record, a failure marks the run, and the caller gets
    /// the job's summary row to append.
    pub fn on_job_finished(&mut self, iid: u32, result: &JobResult) -> (row: Vec<u8>)
        requires
            old(self).wf(),
            old(self).in_flight().contains(iid),
        ensures
            final(self).wf(),
            final(self).instance_list() == old(self).instance_list(),
            final(self).bound() == old(self).bound(),
            final(self).admitted() == old(self).admitted(),
            final(self).subopt_is_error() == old(self).subopt_is_error(),
            final(self).recorded() == old(self).recorded().push(iid),
            final(self).in_flight().to_multiset() == old(self).in_flight().to_multiset().remove(
                iid,
            ),
            final(self).in_flight().len() + 1 == old(self).in_flight().len(),
            final(self).run_failed() == (old(self).run_failed() || reported_as_failure_spec(
                result.state,
                old(self).subopt_is_error(),
            )),
            row@ == summary_line_spec(iid, result.state, result.runtime_ms as nat),
    {
        let idx = index_of_u32(&self.running, iid);
        let ghost before = self.running@;
        self.running.remove(idx);
        proof {
            before.to_multiset_ensures();
            assert(before.remove(idx as int).to_multiset() =~= before.to_multiset().remove(iid));
        }
        self.logged.push(iid);
        if reported_as_failure(result.state, self.suboptimal_is_error) {
            self.failed = true;
        }
        proof {
            before.to_multiset_ensures();
            assert(before.to_multiset().count(iid) > 0);
            assert(self.logged@.to_multiset().add(self.running@.to_multiset())
                =~= old(self).logged@.to_multiset().add(before.to_multiset()));
        }
        summary_line(IId(iid), result)
    }

    /// Whether the run is over: the list is drained and no job is in flight.
    pub fn is_done(&self) -> (r: bool)
        requires
            self.wf(),
        ensures
            r == (self.admitted().len() == self.instance_list().len() && self.in_flight().len()
                == 0),
    {
        proof {
            assert(self.admitted().len() == self.next);
        }
        self.next == self.iids.len() && self.running.len() == 0
    }

    /// Whether any recorded job failed the run, deciding the exit status.
    pub fn any_failure(&self) -> (r: bool)
        ensures
            r == self.run_failed(),
    {
        self.failed
    }
}

/// At no point do more jobs run at once than the parallelism bound allows.
pub proof fn lemma_in_flight_bounded(s: &Scheduler)
    requires
        s.wf(),
    ensures
        s.in_flight().len() <= s.bound(),
{
}

/// When a run is over, the recorded jobs are exactly the instance list: one
/// record for every listed id, none extra, whatever order they finished in.
pub proof fn lemma_done_records_whole_list(s: &Scheduler)
    requires
        s.wf(),
        s.admitted().len() == s.instance_list().len(),
        s.in_flight().len() == 0,
    ensures
        s.recorded().to_multiset() == s.instance_list().to_multiset(),
        s.recorded().len() == s.instance_list().len(),
{
    s.in_flight().to_multiset_ensures();
    s.recorded().to_multiset_ensures();
    s.instance_list().to_multiset_ensures();
    assert(s.in_flight() =~= Seq::<u32>::empty());
    assert(s.in_flight().to_multiset() =~= Multiset::<u32>::empty());
    assert(s.instance_list().take(s.instance_list().len() as int) =~= s.instance_list());
    assert(s.recorded().to_multiset() =~= s.recorded().to_multiset().add(
        Multiset::<u32>::empty(),
    ));
}

/// Counters of finished jobs by outcome, mirrored by the live display.
pub struct ProgressCounters {
    pub num_optimal: u64,
    pub num_suboptimal: u64,
    pub num_infeasible: u64,
    pub num_error: u64,
    pub num_timeout: u64,
    pub num_incomplete: u64,
}

impl ProgressCounters {
    pub open spec fn total(&self) -> int {
        self.num_optimal + self.num_suboptimal + self.num_infeasible + self.num_error
            + self.num_timeout + self.num_incomplete
    }

    pub fn new() -> (r: Self)
        ensures
            r.total() == 0,
            r.num_optimal == 0 && r.num_suboptimal == 0 && r.num_infeasible == 0,
            r.num_error == 0 && r.num_timeout == 0 && r.num_incomplete == 0,
    {
        ProgressCounters {
            num_optimal: 0,
            num_suboptimal: 0,
            num_infeasible: 0,
            num_error: 0,
            num_timeout: 0,
            num_incomplete: 0,
        }
    }

    /// Counts one finished job under its outcome.
    pub fn finish_job(&mut self, status: JobResultState)
        requires
            old(self).total() < u64::MAX,
        ensures
            final(self).total() == old(self).total() + 1,
            final(self).num_optimal == old(self).num_optimal + if status is BestKnown {
                1int
            } else {
                0int
            },
            final(self).num_suboptimal == old(self).num_suboptimal + if status is Suboptimal {
                1int
            } else {
                0int
            },
            final(self).num_infeasible == old(self).num_infeasible + if status is Infeasible {
                1int
            } else {
                0int
            },
            final(self).num_error == old(self).num_error + if status is Error {
                1int
            } else {
                0int
            },
            final(self).num_timeout == old(self).num_timeout + if status is Timeout {
                1int
            } else {
                0int
            },
            final(self).num_incomplete == old(self).num_incomplete + if status is Incomplete {
                1int
            } else {
                0int
            },
    {
        match status {
            JobResultState::BestKnown { .. } => self.num_optimal += 1,
            JobResultState::Suboptimal { .. } => self.num_suboptimal += 1,
            JobResultState::Infeasible => self.num_infeasible += 1,
            JobResultState::Error => self.num_error += 1,
            JobResultState::Timeout => self.num_timeout += 1,
            JobResultState::Incomplete => self.num_incomplete += 1,
        }
    }
}

} // verus!
