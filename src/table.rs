use vstd::prelude::*;

use crate::outcome::{CompletionEvent, LookupError, TransferOutcome};

verus! {

/// The results recorded so far: slot `t` belongs to token `t`, and is `None`
/// while that request is still in flight.
pub type Slots = Seq<Option<TransferOutcome>>;

/// Where routing `e` into `v` ends: the updated slots, or why it was refused.
pub open spec fn route_one(v: Slots, e: CompletionEvent) -> Result<Slots, LookupError> {
    if e.token >= v.len() {
        Err(LookupError::UnknownToken { token: e.token })
    } else if v[e.token as int] is Some {
        Err(LookupError::AlreadyResolved { token: e.token })
    } else {
        Ok(v.update(e.token as int, Some(e.outcome)))
    }
}

/// Routing the events of `es` one after the other, stopping at the first refusal.
pub open spec fn route_all(v: Slots, es: Seq<CompletionEvent>) -> Result<Slots, LookupError>
    decreases es.len(),
{
    if es.len() == 0 {
        Ok(v)
    } else {
        match route_all(v, es.drop_last()) {
            Ok(w) => route_one(w, es.last()),
            Err(err) => Err(err),
        }
    }
}

/// `w` holds the routing of the events before some event of `es`, and that
/// event is refused with `err`.
pub open spec fn refused_at(v: Slots, es: Seq<CompletionEvent>, w: Slots, err: LookupError) -> bool {
    exists|k: int|
        0 <= k < es.len() && route_all(v, es.take(k)) == Ok::<Slots, LookupError>(w) && route_one(
            w,
            #[trigger] es[k],
        ) == Err::<Slots, LookupError>(err)
}

/// The tokens that have a terminal result.
pub open spec fn resolved_tokens(v: Slots) -> Set<int> {
    Set::new(|t: int| 0 <= t < v.len() && v[t] is Some)
}

/// The tokens `0 .. n`.
pub open spec fn token_range(n: int) -> Set<int> {
    Set::new(|t: int| 0 <= t < n)
}

/// The resolved slots whose outcome is a success (`success`) or a transport
/// failure (`!success`).
pub open spec fn count_matching(v: Slots, success: bool) -> nat
    decreases v.len(),
{
    if v.len() == 0 {
        0
    } else {
        count_matching(v.drop_last(), success) + match v.last() {
            Some(o) => if o.is_success_spec() == success { 1nat } else { 0nat },
            None => 0nat,
        }
    }
}

/// The slots still waiting for a terminal result.
pub open spec fn count_unresolved(v: Slots) -> nat
    decreases v.len(),
{
    if v.len() == 0 {
        0
    } else {
        count_unresolved(v.drop_last()) + if v.last() is None { 1nat } else { 0nat }
    }
}

/// Once a prefix of `es` is refused, the whole of `es` is refused the same way.
proof fn lemma_route_all_stops(v: Slots, es: Seq<CompletionEvent>, k: int)
    requires
        0 <= k <= es.len(),
        route_all(v, es.take(k)) is Err,
    ensures
        route_all(v, es) == route_all(v, es.take(k)),
    decreases es.len() - k,
{
    if k < es.len() {
        assert(es.take(k + 1).drop_last() =~= es.take(k));
        lemma_route_all_stops(v, es, k + 1);
    } else {
        assert(es.take(k) =~= es);
    }
}

/// Every slot is exactly one of: succeeded, failed, pending.
pub proof fn lemma_counts_partition(v: Slots)
    ensures
        count_matching(v, true) + count_matching(v, false) + count_unresolved(v) == v.len(),
    decreases v.len(),
{
    if v.len() > 0 {
        lemma_counts_partition(v.drop_last());
    }
}

/// A table with no pending slot holds exactly one terminal result for each
/// token `0 .. n` and for no other token, where `n` is the number submitted.
pub proof fn lemma_all_resolved_exactly_once(v: Slots)
    requires
        count_unresolved(v) == 0,
    ensures
        resolved_tokens(v) == token_range(v.len() as int),
        count_matching(v, true) + count_matching(v, false) == v.len(),
    decreases v.len(),
{
    lemma_counts_partition(v);
    if v.len() > 0 {
        lemma_all_resolved_exactly_once(v.drop_last());
        assert forall|t: int| token_range(v.len() as int).contains(t) implies resolved_tokens(v).contains(t) by {
            if t < v.len() - 1 {
                assert(resolved_tokens(v.drop_last()).contains(t));
            }
        }
    }
    assert(resolved_tokens(v) =~= token_range(v.len() as int));
}

/// Routing an event resolves exactly its own token, which was pending before:
/// no token is resolved twice, and the slots of other tokens stay as they were.
pub proof fn lemma_route_resolves_once(v: Slots, e: CompletionEvent)
    requires
        route_one(v, e) is Ok,
    ensures
        !resolved_tokens(v).contains(e.token as int),
        resolved_tokens(route_one(v, e)->Ok_0) == resolved_tokens(v).insert(e.token as int),
        route_one(v, e)->Ok_0.len() == v.len(),
        forall|t: int| 0 <= t < v.len() && t != e.token ==> route_one(v, e)->Ok_0[t] == v[t],
        count_unresolved(route_one(v, e)->Ok_0) + 1 == count_unresolved(v),
{
    let w = route_one(v, e)->Ok_0;
    assert(resolved_tokens(w) =~= resolved_tokens(v).insert(e.token as int));
    lemma_unresolved_after_update(v, e.token as int, e.outcome);
}

proof fn lemma_unresolved_after_update(v: Slots, t: int, o: TransferOutcome)
    requires
        0 <= t < v.len(),
        v[t] is None,
    ensures
        count_unresolved(v.update(t, Some(o))) + 1 == count_unresolved(v),
    decreases v.len(),
{
    let w = v.update(t, Some(o));
    if t == v.len() - 1 {
        assert(w.drop_last() =~= v.drop_last());
    } else {
        assert(w.drop_last() =~= v.drop_last().update(t, Some(o)));
        lemma_unresolved_after_update(v.drop_last(), t, o);
    }
}

/// Routing a whole drained batch without refusal resolves one pending token
/// per event: the batch's tokens are distinct, were pending, and are now resolved.
pub proof fn lemma_route_all_resolves_each_once(v: Slots, es: Seq<CompletionEvent>)
    requires
        route_all(v, es) is Ok,
    ensures
        route_all(v, es)->Ok_0.len() == v.len(),
        count_unresolved(route_all(v, es)->Ok_0) + es.len() == count_unresolved(v),
        resolved_tokens(route_all(v, es)->Ok_0) == resolved_tokens(v) + es.map_values(
            |e: CompletionEvent| e.token as int,
        ).to_set(),
        forall|i: int| 0 <= i < es.len() ==> !(#[trigger] resolved_tokens(v).contains(es[i].token as int)),
        forall|i: int, j: int| 0 <= i < j < es.len() ==> es[i].token != es[j].token,
    decreases es.len(),
{
    if es.len() > 0 {
        let ds = es.drop_last();
        let e = es.last();
        lemma_route_all_resolves_each_once(v, ds);
        let w = route_all(v, ds)->Ok_0;
        assert(route_all(v, es) == route_one(w, e));
        lemma_route_resolves_once(w, e);
        let f = |x: CompletionEvent| x.token as int;
        assert(es.map_values(f) =~= ds.map_values(f).push(e.token as int));
        assert(es.map_values(f).to_set() =~= ds.map_values(f).to_set().insert(e.token as int)) by {
            assert forall|t: int| es.map_values(f).to_set().contains(t) implies ds.map_values(f).to_set().insert(e.token as int).contains(t) by {
                let k = choose|k: int| 0 <= k < es.map_values(f).len() && es.map_values(f)[k] == t;
                if k < ds.len() {
                    assert(ds.map_values(f)[k] == t);
                }
            }
            assert forall|t: int| ds.map_values(f).to_set().insert(e.token as int).contains(t) implies es.map_values(f).to_set().contains(t) by {
                if t == e.token as int {
                    assert(es.map_values(f)[es.len() - 1] == t);
                } else {
                    let k = choose|k: int| 0 <= k < ds.map_values(f).len() && ds.map_values(f)[k] == t;
                    assert(es.map_values(f)[k] == t);
                }
            }
        }
        assert(resolved_tokens(route_all(v, es)->Ok_0) =~= resolved_tokens(v) + es.map_values(f).to_set());
        assert forall|i: int| 0 <= i < es.len() implies !(#[trigger] resolved_tokens(v).contains(es[i].token as int)) by {
            if i < ds.len() {
                assert(ds[i] == es[i]);
            }
        }
        assert forall|i: int, j: int| 0 <= i < j < es.len() implies es[i].token != es[j].token by {
            if j < ds.len() {
                assert(ds[i] == es[i] && ds[j] == es[j]);
            } else {
                assert(ds.map_values(f)[i] == es[i].token as int);
                assert(resolved_tokens(w).contains(es[i].token as int));
            }
        }
    } else {
        assert(es.map_values(|e: CompletionEvent| e.token as int).to_set() =~= Set::<int>::empty());
        assert(resolved_tokens(v) + Set::<int>::empty() =~= resolved_tokens(v));
    }
}

/// The tokens handed out by a batch submitted to an empty table are exactly
/// `0 .. n`, each once.
pub proof fn lemma_batch_tokens_dense(tokens: Seq<usize>, n: nat)
    requires
        tokens.len() == n,
        forall|i: int| 0 <= i < n ==> tokens[i] == i,
    ensures
        tokens.no_duplicates(),
        tokens.map_values(|t: usize| t as int).to_set() == token_range(n as int),
{
    let m = tokens.map_values(|t: usize| t as int);
    assert forall|t: int| token_range(n as int).contains(t) implies m.to_set().contains(t) by {
        assert(m[t] == t);
    }
    assert(m.to_set() =~= token_range(n as int));
}

/// Maps each submitted request's token to its terminal result, if any.
pub struct TokenTable {
    slots: Vec<Option<TransferOutcome>>,
}

/// Counts of a table's slots by state.
#[derive(Debug, PartialEq, Eq, Structural)]
pub struct TableSummary {
    pub submitted: usize,
    pub successes: usize,
    pub transfer_errors: usize,
    pub unresolved: usize,
}

impl TokenTable {
    pub closed spec fn view(&self) -> Slots {
        self.slots@
    }

    pub fn new() -> (r: TokenTable)
        ensures
            r@ == Seq::<Option<TransferOutcome>>::empty(),
    {
        TokenTable { slots: Vec::new() }
    }

    /// Registers one more request; its token is the number submitted before it.
    pub fn submit(&mut self) -> (token: usize)
        requires
            old(self)@.len() < usize::MAX,
        ensures
            token == old(self)@.len(),
            final(self)@ == old(self)@.push(None),
    {
        let token = self.slots.len();
        self.slots.push(None);
        token
    }

    /// Registers `n` requests and returns their tokens in submission order.
    pub fn submit_batch(&mut self, n: usize) -> (tokens: Vec<usize>)
        requires
            old(self)@.len() + n <= usize::MAX,
        ensures
            tokens@.len() == n,
            forall|i: int| 0 <= i < n ==> tokens@[i] == old(self)@.len() + i,
            final(self)@ =~= old(self)@ + Seq::new(n as nat, |i: int| None::<TransferOutcome>),
    {
        let mut tokens: Vec<usize> = Vec::new();
        let mut k: usize = 0;
        while k < n
            invariant
                k <= n,
                old(self)@.len() + n <= usize::MAX,
                tokens@.len() == k,
                forall|i: int| 0 <= i < k ==> tokens@[i] == old(self)@.len() + i,
                self@ =~= old(self)@ + Seq::new(k as nat, |i: int| None::<TransferOutcome>),
            decreases n - k,
        {
            let t = self.submit();
            tokens.push(t);
            k = k + 1;
        }
        tokens
    }

    pub fn len(&self) -> (r: usize)
        ensures
            r == self@.len(),
    {
        self.slots.len()
    }

    /// Whether the request under `token` has a terminal result.
    pub fn is_resolved(&self, token: usize) -> (r: bool)
        ensures
            r == (token < self@.len() && self@[token as int] is Some),
    {
        token < self.slots.len() && self.slots[token].is_some()
    }

    /// Records the terminal result that `e` carries.
    pub fn record(&mut self, e: CompletionEvent) -> (r: Result<(), LookupError>)
        ensures
            match route_one(old(self)@, e) {
                Ok(w) => r is Ok && final(self)@ == w,
                Err(err) => r == Err::<(), LookupError>(err) && final(self)@ == old(self)@,
            },
    {
        let token = e.token;
        if token >= self.slots.len() {
            return Err(LookupError::UnknownToken { token });
        }
        if self.slots[token].is_some() {
            return Err(LookupError::AlreadyResolved { token });
        }
        self.slots.set(token, Some(e.outcome));
        Ok(())
    }

    /// Counts the slots: submitted, succeeded, failed at the transport, pending.
    pub fn summary(&self) -> (r: TableSummary)
        ensures
            r.submitted == self@.len(),
            r.successes == count_matching(self@, true),
            r.transfer_errors == count_matching(self@, false),
            r.unresolved == count_unresolved(self@),
    {
        let n = self.slots.len();
        let mut successes: usize = 0;
        let mut transfer_errors: usize = 0;
        let mut unresolved: usize = 0;
        let mut i: usize = 0;
        while i < n
            invariant
                n == self@.len(),
                i <= n,
                successes == count_matching(self@.take(i as int), true),
                transfer_errors == count_matching(self@.take(i as int), false),
                unresolved == count_unresolved(self@.take(i as int)),
                successes + transfer_errors + unresolved == i,
            decreases n - i,
        {
            proof {
                assert(self@.take(i + 1).drop_last() =~= self@.take(i as int));
            }
            match &self.slots[i] {
                Some(o) => {
                    if o.is_success() {
                        successes = successes + 1;
                    } else {
                        transfer_errors = transfer_errors + 1;
                    }
                },
                None => {
                    unresolved = unresolved + 1;
                },
            }
            i = i + 1;
        }
        proof {
            assert(self@.take(n as int) =~= self@);
        }
        TableSummary { submitted: n, successes, transfer_errors, unresolved }
    }

    /// Records the events of `events` in order, stopping at the first one that
    /// cannot be routed; returns how many were recorded.
    pub fn record_all(&mut self, events: Vec<CompletionEvent>) -> (r: Result<usize, LookupError>)
        ensures
            match route_all(old(self)@, events@) {
                Ok(w) => r == Ok::<usize, LookupError>(events@.len() as usize) && final(self)@ == w,
                Err(err) => r == Err::<usize, LookupError>(err) && refused_at(
                    old(self)@,
                    events@,
                    final(self)@,
                    err,
                ),
            },
    {
        let ghost es = events@;
        let total = events.len();
        let mut rest = events;
        let mut reversed: Vec<CompletionEvent> = Vec::new();
        while rest.len() > 0
            invariant
                es == events@,
                rest@.len() + reversed@.len() == es.len(),
                forall|i: int| 0 <= i < rest@.len() ==> rest@[i] == es[i],
                forall|j: int| 0 <= j < reversed@.len() ==> reversed@[j] == es[es.len() - 1 - j],
            decreases rest@.len(),
        {
            let e = rest.pop().unwrap();
            reversed.push(e);
        }
        let mut done: usize = 0;
        while reversed.len() > 0
            invariant
                done + reversed@.len() == es.len(),
                es.len() == total,
                es == events@,
                forall|j: int| 0 <= j < reversed@.len() ==> reversed@[j] == es[es.len() - 1 - j],
                route_all(old(self)@, es.take(done as int)) == Ok::<Slots, LookupError>(self@),
            decreases reversed@.len(),
        {
            let e = reversed.pop().unwrap();
            let ghost before = self@;
            proof {
                assert(es.take(done + 1).drop_last() =~= es.take(done as int));
                assert(es.take(done + 1).last() == e);
                assert(route_all(old(self)@, es.take(done + 1)) == route_one(before, e));
            }
            let ghost ev = e;
            match self.record(e) {
                Ok(()) => {},
                Err(err) => {
                    proof {
                        assert(route_one(before, ev) == Err::<Slots, LookupError>(err));
                        lemma_route_all_stops(old(self)@, es, done as int + 1);
                        assert(route_all(old(self)@, es) == Err::<Slots, LookupError>(err));
                        assert(route_one(self@, es[done as int]) == Err::<Slots, LookupError>(err));
                    }
                    return Err(err);
                },
            }
            done = done + 1;
        }
        proof {
            assert(es.take(done as int) =~= es);
        }
        Ok(done)
    }
}

} // verus!
