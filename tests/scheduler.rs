use multiplex_load::outcome::{CompletionEvent, LookupError, TransferOutcome};
use multiplex_load::report::{WorkerFailure, WorkerReport};
use multiplex_load::scheduler::{next_action, LoopAction, Scheduler};

fn ok_event(token: usize) -> CompletionEvent {
    CompletionEvent { token, outcome: TransferOutcome::Success { status: 200, body_len: 17 } }
}

fn reset_event(token: usize) -> CompletionEvent {
    CompletionEvent {
        token,
        outcome: TransferOutcome::Failure { description: String::from("connection reset") },
    }
}

#[test]
fn tokens_are_dense_from_zero() {
    let mut s = Scheduler::new();
    let tokens = s.submit_batch(5);
    assert_eq!(tokens, vec![0, 1, 2, 3, 4]);
    let more = s.submit_batch(2);
    assert_eq!(more, vec![5, 6]);
    assert_eq!(s.summary().submitted, 7);
    assert_eq!(s.summary().unresolved, 7);
}

#[test]
fn all_successes_scenario() {
    let mut s = Scheduler::new();
    let tokens = s.submit_batch(10);
    for t in tokens.iter().rev() {
        s.deliver(ok_event(*t));
    }
    assert_eq!(s.step(false), Ok(LoopAction::Finish));
    let sum = s.summary();
    assert_eq!(sum.successes, 10);
    assert_eq!(sum.transfer_errors, 0);
    assert_eq!(sum.unresolved, 0);
}

#[test]
fn one_reset_scenario() {
    let mut s = Scheduler::new();
    s.submit_batch(10);
    for t in 0..5 {
        if t == 3 {
            s.deliver(reset_event(t));
        } else {
            s.deliver(ok_event(t));
        }
    }
    assert_eq!(s.step(true), Ok(LoopAction::Advance));
    assert_eq!(s.step(true), Ok(LoopAction::Wait));
    for t in 5..10 {
        s.deliver(ok_event(t));
    }
    assert_eq!(s.step(false), Ok(LoopAction::Finish));
    let sum = s.summary();
    assert_eq!(sum.successes, 9);
    assert_eq!(sum.transfer_errors, 1);
    assert_eq!(sum.unresolved, 0);
    for t in 0..10 {
        assert!(s.is_resolved(t));
    }
}

#[test]
fn final_events_are_drained_when_nothing_is_outstanding() {
    let mut s = Scheduler::new();
    s.submit_batch(2);
    s.deliver(ok_event(0));
    s.deliver(ok_event(1));
    assert_eq!(s.step(false), Ok(LoopAction::Finish));
    assert_eq!(s.summary().successes, 2);
}

#[test]
fn non_2xx_status_counts_as_success() {
    let mut s = Scheduler::new();
    s.submit_batch(1);
    s.deliver(CompletionEvent {
        token: 0,
        outcome: TransferOutcome::Success { status: 503, body_len: 0 },
    });
    assert_eq!(s.step(false), Ok(LoopAction::Finish));
    assert_eq!(s.summary().successes, 1);
    assert_eq!(s.summary().transfer_errors, 0);
}

#[test]
fn second_drain_is_empty() {
    let mut s = Scheduler::new();
    s.submit_batch(3);
    s.deliver(ok_event(2));
    s.deliver(ok_event(0));
    let first = s.drain_completions();
    assert_eq!(first.len(), 2);
    assert_eq!(first[0].token, 2);
    assert_eq!(first[1].token, 0);
    let second = s.drain_completions();
    assert!(second.is_empty());
}

#[test]
fn unknown_token_is_refused() {
    let mut s = Scheduler::new();
    s.submit_batch(3);
    s.deliver(ok_event(3));
    assert_eq!(s.step(true), Err(LookupError::UnknownToken { token: 3 }));
}

#[test]
fn second_result_for_a_token_is_refused() {
    let mut s = Scheduler::new();
    s.submit_batch(3);
    s.deliver(ok_event(1));
    s.deliver(ok_event(0));
    s.deliver(reset_event(1));
    s.deliver(ok_event(2));
    assert_eq!(s.step(true), Err(LookupError::AlreadyResolved { token: 1 }));
    assert!(s.is_resolved(0));
    assert!(s.is_resolved(1));
    assert!(!s.is_resolved(2));
    assert_eq!(s.summary().successes, 2);
}

#[test]
fn loop_decisions() {
    assert_eq!(next_action(false, 0), LoopAction::Finish);
    assert_eq!(next_action(false, 4), LoopAction::Finish);
    assert_eq!(next_action(true, 0), LoopAction::Wait);
    assert_eq!(next_action(true, 1), LoopAction::Advance);
}

#[test]
fn empty_run_finishes_at_once() {
    let mut s = Scheduler::new();
    assert!(s.submit_batch(0).is_empty());
    assert_eq!(s.step(false), Ok(LoopAction::Finish));
    assert_eq!(s.summary().submitted, 0);
}

#[test]
fn finished_run_reports_every_token() {
    let mut s = Scheduler::new();
    s.submit_batch(10);
    for t in 0..10 {
        if t == 3 {
            s.deliver(reset_event(t));
        } else {
            s.deliver(ok_event(t));
        }
    }
    assert_eq!(s.step(false), Ok(LoopAction::Finish));
    assert_eq!(
        s.finish_report(250_000),
        Ok(WorkerReport { requests: 10, successes: 9, transfer_errors: 1, elapsed_micros: 250_000 })
    );
    assert_eq!(s.finish_report(250_000).unwrap().throughput(), Some(40));
}

#[test]
fn finish_with_pending_tokens_is_refused() {
    let mut s = Scheduler::new();
    s.submit_batch(4);
    s.deliver(ok_event(0));
    s.deliver(ok_event(2));
    assert_eq!(s.step(false), Ok(LoopAction::Finish));
    assert_eq!(s.finish_report(10), Err(WorkerFailure::Unresolved { pending: 2 }));
}
