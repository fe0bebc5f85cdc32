use vstd::prelude::*;

use crate::outcome::{CompletionEvent, LookupError};
use crate::report::{WorkerFailure, WorkerReport};
use crate::table::{
    count_matching, count_unresolved, lemma_all_resolved_exactly_once, refused_at, resolved_tokens, route_all,
    token_range, Slots, TableSummary, TokenTable,
};

verus! {

/// What the event loop does after one advance of the engine and one drain.
#[derive(Debug, PartialEq, Eq, Structural)]
pub enum LoopAction {
    /// Events came in and work remains: advance again at once.
    Advance,
    /// Nothing came in and work remains: block until activity or the timeout.
    Wait,
    /// The engine holds no outstanding work and the last events are drained.
    Finish,
}

/// The decision of the loop, given whether the engine still reports work
/// and how many events the preceding drain produced.
pub open spec fn next_action_spec(outstanding: bool, drained: nat) -> LoopAction {
    if !outstanding {
        LoopAction::Finish
    } else if drained == 0 {
        LoopAction::Wait
    } else {
        LoopAction::Advance
    }
}

pub fn next_action(outstanding: bool, drained: usize) -> (r: LoopAction)
    ensures
        r == next_action_spec(outstanding, drained as nat),
{
    if !outstanding {
        LoopAction::Finish
    } else if drained == 0 {
        LoopAction::Wait
    } else {
        LoopAction::Advance
    }
}

/// A drain of the queue `q`: what it yields, and the queue it leaves.
pub open spec fn drain_spec(q: Seq<CompletionEvent>) -> (Seq<CompletionEvent>, Seq<CompletionEvent>) {
    (q, Seq::empty())
}

/// Draining a second time with nothing delivered in between yields nothing:
/// no event is handed out twice.
pub proof fn lemma_second_drain_empty(q: Seq<CompletionEvent>)
    ensures
        drain_spec(drain_spec(q).1).0 == Seq::<CompletionEvent>::empty(),
        drain_spec(q).0 == q,
{
}

/// One worker's scheduler: the token table of its requests and the
/// completion events delivered by the engine but not yet drained.
pub struct Scheduler {
    table: TokenTable,
    pending: Vec<CompletionEvent>,
}

impl Scheduler {
    pub closed spec fn slots(&self) -> Slots {
        self.table@
    }

    pub closed spec fn pending(&self) -> Seq<CompletionEvent> {
        self.pending@
    }

    pub fn new() -> (r: Scheduler)
        ensures
            r.slots() == Seq::<Option<crate::outcome::TransferOutcome>>::empty(),
            r.pending() == Seq::<CompletionEvent>::empty(),
    {
        Scheduler { table: TokenTable::new(), pending: Vec::new() }
    }

    /// Registers `n` requests; their tokens continue the dense numbering.
    pub fn submit_batch(&mut self, n: usize) -> (tokens: Vec<usize>)
        requires
            old(self).slots().len() + n <= usize::MAX,
        ensures
            tokens@.len() == n,
            forall|i: int| 0 <= i < n ==> tokens@[i] == old(self).slots().len() + i,
            final(self).slots() =~= old(self).slots() + Seq::new(
                n as nat,
                |i: int| None::<crate::outcome::TransferOutcome>,
            ),
            final(self).pending() == old(self).pending(),
    {
        self.table.submit_batch(n)
    }

    /// Queues an event that the engine reported.
    pub fn deliver(&mut self, e: CompletionEvent)
        ensures
            final(self).pending() == old(self).pending().push(e),
            final(self).slots() == old(self).slots(),
    {
        self.pending.push(e);
    }

    /// Hands out every queued event, each exactly once, and empties the queue.
    pub fn drain_completions(&mut self) -> (r: Vec<CompletionEvent>)
        ensures
            (r@, final(self).pending()) == drain_spec(old(self).pending()),
            final(self).slots() == old(self).slots(),
    {
        let mut drained: Vec<CompletionEvent> = Vec::new();
        std::mem::swap(&mut drained, &mut self.pending);
        drained
    }

    /// One turn of the loop after the engine advanced: drains the queue,
    /// records each event against its token and decides what comes next.
    pub fn step(&mut self, outstanding: bool) -> (r: Result<LoopAction, LookupError>)
        ensures
            final(self).pending() == Seq::<CompletionEvent>::empty(),
            match route_all(old(self).slots(), old(self).pending()) {
                Ok(w) => final(self).slots() == w && r == Ok::<LoopAction, LookupError>(
                    next_action_spec(outstanding, old(self).pending().len()),
                ),
                Err(err) => r == Err::<LoopAction, LookupError>(err) && refused_at(
                    old(self).slots(),
                    old(self).pending(),
                    final(self).slots(),
                    err,
                ),
            },
    {
        let events = self.drain_completions();
        let n = events.len();
        let recorded = self.table.record_all(events);
        match recorded {
            Ok(_) => Ok(next_action(outstanding, n)),
            Err(err) => Err(err),
        }
    }

    /// Whether the request under `token` has a terminal result.
    pub fn is_resolved(&self, token: usize) -> (r: bool)
        ensures
            r == (token < self.slots().len() && self.slots()[token as int] is Some),
    {
        self.table.is_resolved(token)
    }

    /// The report of a finished run: owed exactly when every submitted
    /// request has its terminal result, each token `0 .. n` exactly one.
    pub fn finish_report(&self, elapsed_micros: u64) -> (r: Result<WorkerReport, WorkerFailure>)
        ensures
            r is Ok <==> count_unresolved(self.slots()) == 0,
            r is Ok ==> resolved_tokens(self.slots()) == token_range(self.slots().len() as int),
            r is Ok ==> r->Ok_0 == (WorkerReport {
                requests: self.slots().len() as usize,
                successes: count_matching(self.slots(), true) as usize,
                transfer_errors: count_matching(self.slots(), false) as usize,
                elapsed_micros,
            }),
            r is Ok ==> r->Ok_0.is_consistent(),
            r is Err ==> r == Err::<WorkerReport, WorkerFailure>(
                WorkerFailure::Unresolved { pending: count_unresolved(self.slots()) as usize },
            ),
    {
        let s = self.table.summary();
        if s.unresolved > 0 {
            return Err(WorkerFailure::Unresolved { pending: s.unresolved });
        }
        proof {
            lemma_all_resolved_exactly_once(self.slots());
        }
        Ok(WorkerReport::from_summary(&s, elapsed_micros))
    }

    pub fn summary(&self) -> (r: TableSummary)
        ensures
            r.submitted == self.slots().len(),
            r.successes == count_matching(self.slots(), true),
            r.transfer_errors == count_matching(self.slots(), false),
            r.unresolved == count_unresolved(self.slots()),
    {
        self.table.summary()
    }
}

} // verus!
