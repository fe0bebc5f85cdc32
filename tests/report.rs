use multiplex_load::outcome::LookupError;
use multiplex_load::report::{pool_totals, throughput_per_sec, WorkerFailure, WorkerReport};
use multiplex_load::table::TableSummary;

fn report(requests: usize, successes: usize, transfer_errors: usize) -> WorkerReport {
    WorkerReport { requests, successes, transfer_errors, elapsed_micros: 2_000_000 }
}

#[test]
fn throughput_formula() {
    assert_eq!(throughput_per_sec(100_000, 4_000_000), Some(25_000));
    assert_eq!(throughput_per_sec(3, 2_000_000), Some(1));
    assert_eq!(throughput_per_sec(7, 0), None);
    assert_eq!(report(10, 9, 1).throughput(), Some(5));
}

#[test]
fn report_from_summary() {
    let s = TableSummary { submitted: 10, successes: 9, transfer_errors: 1, unresolved: 0 };
    let r = WorkerReport::from_summary(&s, 1_500);
    assert_eq!(r, WorkerReport { requests: 10, successes: 9, transfer_errors: 1, elapsed_micros: 1_500 });
}

#[test]
fn two_workers_totals() {
    let ws = vec![Ok(report(50, 50, 0)), Ok(report(50, 47, 3))];
    let t = pool_totals(&ws);
    assert_eq!(t.requests, 100);
    assert_eq!(t.successes, 97);
    assert_eq!(t.transfer_errors, 3);
    assert_eq!(t.failed_workers, 0);
    assert_eq!(t.successes, t.requests - t.transfer_errors);
}

#[test]
fn failed_worker_leaves_others_counted() {
    let ws = vec![
        Ok(report(50, 50, 0)),
        Err(WorkerFailure::Setup),
        Err(WorkerFailure::Routing(LookupError::UnknownToken { token: 9 })),
        Err(WorkerFailure::Panicked),
        Ok(report(50, 49, 1)),
    ];
    let t = pool_totals(&ws);
    assert_eq!(t.requests, 100);
    assert_eq!(t.successes, 99);
    assert_eq!(t.transfer_errors, 1);
    assert_eq!(t.failed_workers, 3);
}

#[test]
fn empty_pool_totals() {
    let t = pool_totals(&Vec::new());
    assert_eq!(t.requests, 0);
    assert_eq!(t.failed_workers, 0);
}
