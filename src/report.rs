use vstd::prelude::*;

use crate::outcome::LookupError;
use crate::table::TableSummary;

verus! {

/// What one worker reports once its loop has finished.
#[derive(Debug, PartialEq, Eq, Structural)]
pub struct WorkerReport {
    pub requests: usize,
    pub successes: usize,
    pub transfer_errors: usize,
    /// From the end of submission to the end of the loop.
    pub elapsed_micros: u64,
}

/// Why a worker stopped before its loop finished.
#[derive(Debug, PartialEq, Eq, Structural)]
pub enum WorkerFailure {
    /// The engine or a request could not be set up.
    Setup,
    /// A completion event could not be routed to the token table.
    Routing(LookupError),
    /// The engine failed while driving the transfers.
    Engine,
    /// The engine reported no outstanding work while requests were still pending.
    Unresolved { pending: usize },
    /// The worker's execution unit died.
    Panicked,
}

impl WorkerReport {
    pub open spec fn is_consistent(&self) -> bool {
        self.successes + self.transfer_errors == self.requests
    }

    pub fn from_summary(s: &TableSummary, elapsed_micros: u64) -> (r: WorkerReport)
        ensures
            r.requests == s.submitted,
            r.successes == s.successes,
            r.transfer_errors == s.transfer_errors,
            r.elapsed_micros == elapsed_micros,
    {
        WorkerReport {
            requests: s.submitted,
            successes: s.successes,
            transfer_errors: s.transfer_errors,
            elapsed_micros,
        }
    }

    /// Completed requests per second, or `None` when no time has elapsed.
    pub fn throughput(&self) -> (r: Option<u128>)
        ensures
            r == throughput_spec(self.successes as nat + self.transfer_errors as nat, self.elapsed_micros as nat),
    {
        let completed = self.successes as u128 + self.transfer_errors as u128;
        throughput_per_sec(completed, self.elapsed_micros)
    }
}

/// Completed requests per second, rounded down; undefined for no elapsed time.
pub open spec fn throughput_spec(completed: nat, elapsed_micros: nat) -> Option<u128> {
    if elapsed_micros == 0 {
        None
    } else {
        Some(((completed * 1_000_000) / elapsed_micros) as u128)
    }
}

/// `completed / elapsed seconds`, rounded down, with the time given in microseconds.
pub fn throughput_per_sec(completed: u128, elapsed_micros: u64) -> (r: Option<u128>)
    requires
        completed <= u128::MAX / 1_000_000,
    ensures
        r == throughput_spec(completed as nat, elapsed_micros as nat),
{
    if elapsed_micros == 0 {
        None
    } else {
        let scaled = completed * 1_000_000;
        Some(scaled / (elapsed_micros as u128))
    }
}

/// The sum of the integers of `s`.
pub open spec fn int_sum(s: Seq<int>) -> int
    decreases s.len(),
{
    if s.len() == 0 {
        0
    } else {
        int_sum(s.drop_last()) + s.last()
    }
}

/// One field of a finished worker's report (0: requests, 1: successes,
/// 2: transfer errors); a failed worker counts as zero.
pub open spec fn report_field(w: Result<WorkerReport, WorkerFailure>, which: nat) -> int {
    match w {
        Ok(r) => if which == 0 {
            r.requests as int
        } else if which == 1 {
            r.successes as int
        } else {
            r.transfer_errors as int
        },
        Err(_) => 0,
    }
}

/// The sum of one field (0: requests, 1: successes, 2: transfer errors)
/// over the workers that finished.
pub open spec fn pool_total(ws: Seq<Result<WorkerReport, WorkerFailure>>, which: nat) -> int {
    int_sum(ws.map_values(|w: Result<WorkerReport, WorkerFailure>| report_field(w, which)))
}

/// The workers that stopped before their loop finished.
pub open spec fn count_failed(ws: Seq<Result<WorkerReport, WorkerFailure>>) -> nat
    decreases ws.len(),
{
    if ws.len() == 0 {
        0
    } else {
        count_failed(ws.drop_last()) + if ws.last() is Err { 1nat } else { 0nat }
    }
}

/// Totals over all workers of a pool.
#[derive(Debug, PartialEq, Eq, Structural)]
pub struct PoolTotals {
    pub requests: u64,
    pub successes: u64,
    pub transfer_errors: u64,
    pub failed_workers: usize,
}

proof fn lemma_sum_prefix(ws: Seq<Result<WorkerReport, WorkerFailure>>, which: nat, i: int)
    requires
        0 <= i < ws.len(),
    ensures
        pool_total(ws.take(i + 1), which) == pool_total(ws.take(i), which) + report_field(ws[i], which),
        report_field(ws[i], which) >= 0,
        pool_total(ws.take(i + 1), which) <= pool_total(ws, which),
    decreases ws.len() - i,
{
    let f = |w: Result<WorkerReport, WorkerFailure>| report_field(w, which);
    assert(ws.take(i + 1).map_values(f).drop_last() =~= ws.take(i).map_values(f));
    if i + 1 < ws.len() {
        lemma_sum_prefix(ws, which, i + 1);
    } else {
        assert(ws.take(i + 1) =~= ws);
    }
}

/// Adds up the reports of the workers that finished and counts those that did not.
pub fn pool_totals(ws: &Vec<Result<WorkerReport, WorkerFailure>>) -> (r: PoolTotals)
    requires
        pool_total(ws@, 0) <= u64::MAX,
        pool_total(ws@, 1) <= u64::MAX,
        pool_total(ws@, 2) <= u64::MAX,
    ensures
        r.requests == pool_total(ws@, 0),
        r.successes == pool_total(ws@, 1),
        r.transfer_errors == pool_total(ws@, 2),
        r.failed_workers == count_failed(ws@),
{
    let mut t = PoolTotals { requests: 0, successes: 0, transfer_errors: 0, failed_workers: 0 };
    let mut i: usize = 0;
    proof {
        assert(ws@.take(0).map_values(|w: Result<WorkerReport, WorkerFailure>| report_field(w, 0)) =~= Seq::<int>::empty());
        assert(ws@.take(0).map_values(|w: Result<WorkerReport, WorkerFailure>| report_field(w, 1)) =~= Seq::<int>::empty());
        assert(ws@.take(0).map_values(|w: Result<WorkerReport, WorkerFailure>| report_field(w, 2)) =~= Seq::<int>::empty());
    }
    while i < ws.len()
        invariant
            i <= ws@.len(),
            pool_total(ws@, 0) <= u64::MAX,
            pool_total(ws@, 1) <= u64::MAX,
            pool_total(ws@, 2) <= u64::MAX,
            t.requests == pool_total(ws@.take(i as int), 0),
            t.successes == pool_total(ws@.take(i as int), 1),
            t.transfer_errors == pool_total(ws@.take(i as int), 2),
            t.failed_workers == count_failed(ws@.take(i as int)),
            t.failed_workers <= i,
        decreases ws@.len() - i,
    {
        proof {
            lemma_sum_prefix(ws@, 0, i as int);
            lemma_sum_prefix(ws@, 1, i as int);
            lemma_sum_prefix(ws@, 2, i as int);
            assert(ws@.take(i + 1).drop_last() =~= ws@.take(i as int));
        }
        match &ws[i] {
            Ok(w) => {
                t.requests = t.requests + w.requests as u64;
                t.successes = t.successes + w.successes as u64;
                t.transfer_errors = t.transfer_errors + w.transfer_errors as u64;
            },
            Err(_) => {
                t.failed_workers = t.failed_workers + 1;
            },
        }
        i = i + 1;
    }
    proof {
        assert(ws@.take(i as int) =~= ws@);
    }
    t
}

/// Across the workers that finished with every request resolved, the
/// successes are the requests less the transfer errors, and never more than
/// the requests; workers that failed add nothing to either.
pub proof fn lemma_pool_successes(ws: Seq<Result<WorkerReport, WorkerFailure>>)
    requires
        forall|i: int| 0 <= i < ws.len() && ws[i] is Ok ==> (#[trigger] ws[i])->Ok_0.is_consistent(),
    ensures
        pool_total(ws, 1) == pool_total(ws, 0) - pool_total(ws, 2),
        pool_total(ws, 1) <= pool_total(ws, 0),
    decreases ws.len(),
{
    if ws.len() > 0 {
        let v = ws.drop_last();
        lemma_pool_successes(v);
        lemma_sum_prefix(ws, 0, ws.len() - 1);
        lemma_sum_prefix(ws, 1, ws.len() - 1);
        lemma_sum_prefix(ws, 2, ws.len() - 1);
        assert(ws.take(ws.len() - 1) =~= v);
        assert(ws.take(ws.len() as int) =~= ws);
        assert(ws[ws.len() - 1] is Ok ==> ws[ws.len() - 1]->Ok_0.is_consistent());
    }
}

proof fn lemma_int_sum_update(s: Seq<int>, i: int, x: int)
    requires
        0 <= i < s.len(),
    ensures
        int_sum(s.update(i, x)) == int_sum(s) - s[i] + x,
    decreases s.len(),
{
    if i == s.len() - 1 {
        assert(s.update(i, x).drop_last() =~= s.drop_last());
    } else {
        assert(s.update(i, x).drop_last() =~= s.drop_last().update(i, x));
        lemma_int_sum_update(s.drop_last(), i, x);
    }
}

/// A worker that fails, whatever the others did, removes only its own
/// report from the pool's totals: every other worker is still counted as is.
pub proof fn lemma_failure_affects_only_itself(
    ws: Seq<Result<WorkerReport, WorkerFailure>>,
    i: int,
    f: WorkerFailure,
    which: nat,
)
    requires
        0 <= i < ws.len(),
    ensures
        pool_total(ws.update(i, Err(f)), which) == pool_total(ws, which) - report_field(ws[i], which),
{
    let g = |w: Result<WorkerReport, WorkerFailure>| report_field(w, which);
    assert(ws.update(i, Err(f)).map_values(g) =~= ws.map_values(g).update(i, 0));
    lemma_int_sum_update(ws.map_values(g), i, 0);
}

} // verus!
