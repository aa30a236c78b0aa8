//! Execution fan-out: a plan of backend calls is resolved against the backend
//! registry, the calls are issued, their outcomes are collected by call
//! identity, and the outcomes are merged into one aggregate response.
use vstd::prelude::*;
use crate::callback_plugin::ConfigurationError;

verus! {

/// One call of a plan: the backend it targets and the payload sent to it.
#[derive(Clone, Debug, PartialEq, Eq)]
pub struct BackendCall {
    pub backend: String,
    pub payload: String,
}

/// The output of planning: the backend calls that satisfy one request.
#[derive(Clone, Debug, PartialEq, Eq)]
pub struct Plan {
    pub calls: Vec<BackendCall>,
}

/// What one backend call came back with.
#[derive(Clone, Debug, PartialEq, Eq)]
pub enum Outcome {
    Success { payload: String },
    Failure { kind: String },
}

/// A successful partial result, tagged with the call (its index in the plan)
/// and the backend that produced it.
#[derive(Clone, Debug, PartialEq, Eq)]
pub struct PartialPayload {
    pub call: usize,
    pub backend: String,
    pub payload: String,
}

/// A failed backend call, tagged with the call and its backend.
#[derive(Clone, Debug, PartialEq, Eq)]
pub struct BackendError {
    pub call: usize,
    pub backend: String,
    pub kind: String,
}

/// The merged output of a plan: the successful partial results and one error
/// entry per failed call, both in plan order, and the number of calls merged.
#[derive(Clone, Debug, PartialEq, Eq)]
pub struct AggregateResponse {
    pub data: Vec<PartialPayload>,
    pub errors: Vec<BackendError>,
    pub call_count: usize,
}

/// A whole-request failure of the merge step.
#[derive(Clone, Copy, Debug, PartialEq, Eq, Structural)]
pub enum FanoutFailure {
    /// The plan had calls and every one of them failed.
    NoSuccessfulCall,
}

/// The backend names a registry can serve, each held once.
pub struct Registry {
    names: Vec<String>,
}

impl View for Registry {
    type V = Set<Seq<char>>;

    closed spec fn view(&self) -> Set<Seq<char>> {
        Set::new(|n: Seq<char>| exists|i: int| 0 <= i < self.names@.len() && #[trigger] self.names@[i]@ == n)
    }
}

impl Registry {
    pub closed spec fn wf(&self) -> bool {
        forall|i: int, j: int|
            0 <= i < j < self.names@.len() ==> #[trigger] self.names@[i]@ != #[trigger] self.names@[j]@
    }

    /// An empty registry.
    pub fn new() -> (r: Registry)
        ensures
            r.wf(),
            r@ == Set::<Seq<char>>::empty(),
    {
        let r = Registry { names: Vec::new() };
        assert(r@ =~= Set::<Seq<char>>::empty());
        r
    }

    /// Whether `name` is registered.
    pub fn contains(&self, name: &String) -> (r: bool)
        ensures
            r == self@.contains(name@),
    {
        let mut i: usize = 0;
        while i < self.names.len()
            invariant
                i <= self.names@.len(),
                forall|j: int| 0 <= j < i ==> #[trigger] self.names@[j]@ != name@,
            decreases self.names@.len() - i,
        {
            if self.names[i] == *name {
                assert(self@.contains(name@));
                return true;
            }
            i = i + 1;
        }
        assert(!self@.contains(name@));
        false
    }

    /// Adds a backend name; a name registered twice is a configuration error
    /// and leaves the registry as it was.
    pub fn register(&mut self, name: String) -> (r: Result<(), ConfigurationError>)
        requires
            old(self).wf(),
        ensures
            final(self).wf(),
            old(self)@.contains(name@) ==> r == Err::<(), ConfigurationError>(
                ConfigurationError::DuplicateBackend { name },
            ) && final(self)@ == old(self)@,
            !old(self)@.contains(name@) ==> r is Ok && final(self)@ == old(self)@.insert(name@),
    {
        if self.contains(&name) {
            return Err(ConfigurationError::DuplicateBackend { name });
        }
        let ghost before = self.names@;
        self.names.push(name);
        assert forall|i: int, j: int| 0 <= i < j < self.names@.len() implies #[trigger] self.names@[i]@
            != #[trigger] self.names@[j]@ by {
            assert(self.names@[i] == before[i]);
            if j < before.len() {
                assert(self.names@[j] == before[j]);
            } else {
                assert(!old(self)@.contains(self.names@[j]@));
            }
        }
        assert forall|n: Seq<char>| #[trigger] self@.contains(n) == old(self)@.insert(name@).contains(n) by {
            if old(self)@.contains(n) {
                let i = choose|i: int| 0 <= i < before.len() && #[trigger] before[i]@ == n;
                assert(self.names@[i] == before[i]);
            }
            if n == name@ {
                assert(self.names@[before.len() as int]@ == n);
            }
            if self@.contains(n) && n != name@ {
                let i = choose|i: int| 0 <= i < self.names@.len() && #[trigger] self.names@[i]@ == n;
                assert(self.names@[i] == before[i]);
            }
        }
        assert(self@ =~= old(self)@.insert(name@));
        Ok(())
    }
}

/// Every call of the plan targets a registered backend.
pub open spec fn resolvable(calls: Seq<BackendCall>, registry: Set<Seq<char>>) -> bool {
    forall|i: int| 0 <= i < calls.len() ==> registry.contains(#[trigger] calls[i].backend@)
}

/// Call `i` is the first whose backend is not registered, and `e` names it.
pub open spec fn first_unresolved(
    calls: Seq<BackendCall>,
    registry: Set<Seq<char>>,
    i: int,
    e: ConfigurationError,
) -> bool {
    &&& 0 <= i < calls.len()
    &&& !registry.contains(calls[i].backend@)
    &&& resolvable(calls.take(i), registry)
    &&& e == (ConfigurationError::UnresolvableBackend { name: calls[i].backend })
}

/// Checks that every backend the plan names is registered. The error names
/// the first call whose backend is not.
pub fn resolve(plan: &Plan, registry: &Registry) -> (r: Result<(), ConfigurationError>)
    ensures
        (r is Ok) == resolvable(plan.calls@, registry@),
        r matches Err(e) ==> exists|i: int| #[trigger] first_unresolved(plan.calls@, registry@, i, e),
{
    let mut i: usize = 0;
    while i < plan.calls.len()
        invariant
            i <= plan.calls@.len(),
            resolvable(plan.calls@.take(i as int), registry@),
        decreases plan.calls@.len() - i,
    {
        if !registry.contains(&plan.calls[i].backend) {
            assert(first_unresolved(plan.calls@, registry@, i as int, ConfigurationError::UnresolvableBackend { name: plan.calls@[i as int].backend }));
            return Err(ConfigurationError::UnresolvableBackend { name: plan.calls[i].backend.clone() });
        }
        assert forall|j: int| 0 <= j < i + 1 implies registry@.contains(
            #[trigger] plan.calls@.take(i + 1)[j].backend@,
        ) by {
            if j < i {
                assert(plan.calls@.take(i + 1)[j] == plan.calls@.take(i as int)[j]);
            }
        }
        i = i + 1;
    }
    assert(plan.calls@.take(i as int) =~= plan.calls@);
    Ok(())
}

/// The successful partial results among the first `i` calls, in plan order.
pub open spec fn merged_data(calls: Seq<BackendCall>, outcomes: Seq<Outcome>, i: int) -> Seq<
    PartialPayload,
>
    decreases i,
{
    if i <= 0 {
        Seq::empty()
    } else {
        let prev = merged_data(calls, outcomes, i - 1);
        match outcomes[i - 1] {
            Outcome::Success { payload } => prev.push(
                PartialPayload { call: (i - 1) as usize, backend: calls[i - 1].backend, payload },
            ),
            Outcome::Failure { .. } => prev,
        }
    }
}

/// One error entry per failed call among the first `i` calls, in plan order.
pub open spec fn merged_errors(calls: Seq<BackendCall>, outcomes: Seq<Outcome>, i: int) -> Seq<
    BackendError,
>
    decreases i,
{
    if i <= 0 {
        Seq::empty()
    } else {
        let prev = merged_errors(calls, outcomes, i - 1);
        match outcomes[i - 1] {
            Outcome::Failure { kind } => prev.push(
                BackendError { call: (i - 1) as usize, backend: calls[i - 1].backend, kind },
            ),
            Outcome::Success { .. } => prev,
        }
    }
}

/// The merge fails as a whole when the plan had calls and none succeeded.
pub open spec fn merge_fails(calls: Seq<BackendCall>, outcomes: Seq<Outcome>) -> bool {
    calls.len() > 0 && merged_data(calls, outcomes, outcomes.len() as int).len() == 0
}

/// `resp` is the merge of `outcomes` (one per call of `calls`, by position).
pub open spec fn is_merge_of(
    resp: AggregateResponse,
    calls: Seq<BackendCall>,
    outcomes: Seq<Outcome>,
) -> bool {
    &&& resp.data@ == merged_data(calls, outcomes, outcomes.len() as int)
    &&& resp.errors@ == merged_errors(calls, outcomes, outcomes.len() as int)
    &&& resp.call_count == calls.len()
}

/// Merges the outcome of every call of the plan (`outcomes[i]` is the outcome
/// of call `i`) into one response: the successful payloads and one error per
/// failed call, in plan order. Fails when the plan had calls and all failed.
pub fn merge(plan: &Plan, outcomes: &Vec<Outcome>) -> (r: Result<AggregateResponse, FanoutFailure>)
    requires
        outcomes@.len() == plan.calls@.len(),
    ensures
        merge_fails(plan.calls@, outcomes@) ==> r == Err::<AggregateResponse, FanoutFailure>(
            FanoutFailure::NoSuccessfulCall,
        ),
        !merge_fails(plan.calls@, outcomes@) ==> (r matches Ok(resp) && is_merge_of(
            resp,
            plan.calls@,
            outcomes@,
        )),
{
    let mut data: Vec<PartialPayload> = Vec::new();
    let mut errors: Vec<BackendError> = Vec::new();
    let mut i: usize = 0;
    while i < outcomes.len()
        invariant
            i <= outcomes@.len(),
            outcomes@.len() == plan.calls@.len(),
            data@ == merged_data(plan.calls@, outcomes@, i as int),
            errors@ == merged_errors(plan.calls@, outcomes@, i as int),
        decreases outcomes@.len() - i,
    {
        match &outcomes[i] {
            Outcome::Success { payload } => {
                data.push(
                    PartialPayload {
                        call: i,
                        backend: plan.calls[i].backend.clone(),
                        payload: payload.clone(),
                    },
                );
            },
            Outcome::Failure { kind } => {
                errors.push(
                    BackendError {
                        call: i,
                        backend: plan.calls[i].backend.clone(),
                        kind: kind.clone(),
                    },
                );
            },
        }
        i = i + 1;
    }
    if plan.calls.len() > 0 && data.len() == 0 {
        return Err(FanoutFailure::NoSuccessfulCall);
    }
    Ok(AggregateResponse { data, errors, call_count: plan.calls.len() })
}

/// A copy of an outcome.
fn copy_outcome(o: &Outcome) -> (r: Outcome)
    ensures
        r == *o,
{
    match o {
        Outcome::Success { payload } => Outcome::Success { payload: payload.clone() },
        Outcome::Failure { kind } => Outcome::Failure { kind: kind.clone() },
    }
}

/// The results after a call completes: recorded by call identity when the
/// fan-out is live, the call exists and has no result yet; unchanged otherwise.
pub open spec fn record(
    results: Seq<Option<Outcome>>,
    cancelled: bool,
    call: int,
    outcome: Outcome,
) -> Seq<Option<Outcome>> {
    if !cancelled && 0 <= call < results.len() && results[call] is None {
        results.update(call, Some(outcome))
    } else {
        results
    }
}

/// Every call has a result.
pub open spec fn all_done(results: Seq<Option<Outcome>>) -> bool {
    forall|i: int| 0 <= i < results.len() ==> #[trigger] results[i] is Some
}

/// The outcomes of a fan-out whose calls are all done.
pub open spec fn outcomes_of(results: Seq<Option<Outcome>>) -> Seq<Outcome> {
    results.map_values(|o: Option<Outcome>| o->Some_0)
}

/// The fan-out of one request: its plan, the result of each call so far (by
/// position in the plan), and whether the request was cancelled.
pub struct Fanout {
    plan: Plan,
    results: Vec<Option<Outcome>>,
    cancelled: bool,
}

impl Fanout {
    pub closed spec fn plan(&self) -> Plan {
        self.plan
    }

    pub closed spec fn results(&self) -> Seq<Option<Outcome>> {
        self.results@
    }

    pub closed spec fn is_cancelled(&self) -> bool {
        self.cancelled
    }

    pub open spec fn wf(&self) -> bool {
        self.results().len() == self.plan().calls@.len()
    }

    /// Starts the fan-out of `plan`. When a backend of the plan is not
    /// registered, the fan-out does not start (no call is issued) and the
    /// error names that backend.
    pub fn start(plan: Plan, registry: &Registry) -> (r: Result<Fanout, ConfigurationError>)
        ensures
            (r is Ok) == resolvable(plan.calls@, registry@),
            r matches Ok(f) ==> f.wf() && f.plan() == plan && !f.is_cancelled() && forall|i: int|
                0 <= i < f.results().len() ==> #[trigger] f.results()[i] is None,
            r matches Err(e) ==> exists|i: int| #[trigger] first_unresolved(plan.calls@, registry@, i, e),
    {
        match resolve(&plan, registry) {
            Err(e) => Err(e),
            Ok(()) => {
                let mut results: Vec<Option<Outcome>> = Vec::new();
                let mut i: usize = 0;
                while i < plan.calls.len()
                    invariant
                        i <= plan.calls@.len(),
                        results@.len() == i,
                        forall|j: int| 0 <= j < i ==> #[trigger] results@[j] is None,
                    decreases plan.calls@.len() - i,
                {
                    results.push(None);
                    i = i + 1;
                }
                Ok(Fanout { plan, results, cancelled: false })
            },
        }
    }

    /// The calls still waiting for a result; none once cancelled.
    pub fn pending(&self) -> (r: Vec<usize>)
        requires
            self.wf(),
        ensures
            self.is_cancelled() ==> r@.len() == 0,
            !self.is_cancelled() ==> forall|i: int|
                0 <= i < self.results().len() ==> (self.results()[i] is None <==> r@.contains(i as usize)),
            forall|k: int| 0 <= k < r@.len() ==> #[trigger] r@[k] < self.results().len(),
            forall|a: int, b: int| 0 <= a < b < r@.len() ==> #[trigger] r@[a] < #[trigger] r@[b],
            r@.no_duplicates(),
    {
        let mut r: Vec<usize> = Vec::new();
        if self.cancelled {
            return r;
        }
        let mut i: usize = 0;
        while i < self.results.len()
            invariant
                i <= self.results@.len(),
                forall|k: int| 0 <= k < r@.len() ==> #[trigger] r@[k] < i,
                forall|a: int, b: int| 0 <= a < b < r@.len() ==> #[trigger] r@[a] < #[trigger] r@[b],
                forall|j: int| 0 <= j < i ==> (self.results@[j] is None <==> r@.contains(j as usize)),
            decreases self.results@.len() - i,
        {
            let ghost before = r@;
            if self.results[i].is_none() {
                r.push(i);
            }
            assert forall|j: int| 0 <= j < i + 1 implies (self.results@[j] is None <==> r@.contains(
                j as usize,
            )) by {
                if before.contains(j as usize) {
                    let k = choose|k: int| 0 <= k < before.len() && before[k] == j as usize;
                    assert(r@[k] == before[k]);
                }
                if r@.contains(j as usize) {
                    let k = choose|k: int| 0 <= k < r@.len() && r@[k] == j as usize;
                    if k < before.len() {
                        assert(before[k] == r@[k]);
                        assert(before[k] < i);
                    }
                }
                if j == i && self.results@[j] is None {
                    assert(r@[r@.len() - 1] == i);
                }
            }
            assert forall|a: int, b: int| 0 <= a < b < r@.len() implies #[trigger] r@[a] < #[trigger] r@[b] by {
                if b >= before.len() {
                    assert(r@[a] == before[a]);
                } else {
                    assert(r@[a] == before[a]);
                    assert(r@[b] == before[b]);
                }
            }
            i = i + 1;
        }
        assert forall|a: int, b: int| 0 <= a < r@.len() && 0 <= b < r@.len() && a != b implies r@[a]
            != r@[b] by {
            if a < b {
                assert(r@[a] < r@[b]);
            } else {
                assert(r@[b] < r@[a]);
            }
        }
        r
    }

    /// Records the outcome of call `call`; no effect once cancelled, for an
    /// unknown call, or for a call that already has its result.
    pub fn complete(&mut self, call: usize, outcome: Outcome)
        requires
            old(self).wf(),
        ensures
            final(self).wf(),
            final(self).plan() == old(self).plan(),
            final(self).is_cancelled() == old(self).is_cancelled(),
            final(self).results() == record(old(self).results(), old(self).is_cancelled(), call as int, outcome),
    {
        if !self.cancelled && call < self.results.len() && self.results[call].is_none() {
            self.results.set(call, Some(outcome));
        }
    }

    /// Cancels the request: its pending calls no longer count and no response
    /// will be produced.
    pub fn cancel(&mut self)
        requires
            old(self).wf(),
        ensures
            final(self).wf(),
            final(self).plan() == old(self).plan(),
            final(self).results() == old(self).results(),
            final(self).is_cancelled(),
    {
        self.cancelled = true;
    }

    /// The response, once every call has its result: the merge of the
    /// outcomes in plan order. None while a call is pending or after
    /// cancellation.
    pub fn finish(&self) -> (r: Option<Result<AggregateResponse, FanoutFailure>>)
        requires
            self.wf(),
        ensures
            (r is None) == (self.is_cancelled() || !all_done(self.results())),
            r matches Some(res) ==> {
                let outs = outcomes_of(self.results());
                &&& merge_fails(self.plan().calls@, outs) ==> res == Err::<
                    AggregateResponse,
                    FanoutFailure,
                >(FanoutFailure::NoSuccessfulCall)
                &&& !merge_fails(self.plan().calls@, outs) ==> (res matches Ok(resp) && is_merge_of(
                    resp,
                    self.plan().calls@,
                    outs,
                ))
            },
    {
        if self.cancelled {
            return None;
        }
        let mut outcomes: Vec<Outcome> = Vec::new();
        let mut i: usize = 0;
        while i < self.results.len()
            invariant
                i <= self.results@.len(),
                outcomes@.len() == i,
                forall|j: int| 0 <= j < i ==> #[trigger] self.results@[j] == Some(outcomes@[j]),
            decreases self.results@.len() - i,
        {
            match &self.results[i] {
                Some(o) => outcomes.push(copy_outcome(o)),
                None => {
                    assert(!all_done(self.results@));
                    return None;
                },
            }
            i = i + 1;
        }
        assert(outcomes@ =~= outcomes_of(self.results@));
        Some(merge(&self.plan, &outcomes))
    }
}

/// Cancels request `k` among the requests in flight. Cancellation is per
/// request: every other request keeps its plan, its results and its state.
pub fn cancel_request(requests: &mut Vec<Fanout>, k: usize)
    requires
        k < old(requests)@.len(),
        forall|i: int| 0 <= i < old(requests)@.len() ==> (#[trigger] old(requests)@[i]).wf(),
    ensures
        final(requests)@.len() == old(requests)@.len(),
        forall|i: int| 0 <= i < final(requests)@.len() ==> (#[trigger] final(requests)@[i]).wf(),
        forall|j: int|
            0 <= j < final(requests)@.len() && j != k ==> #[trigger] final(requests)@[j] == old(
                requests,
            )@[j],
        final(requests)@[k as int].is_cancelled(),
        final(requests)@[k as int].plan() == old(requests)@[k as int].plan(),
        final(requests)@[k as int].results() == old(requests)@[k as int].results(),
{
    let mut f = requests.remove(k);
    f.cancel();
    requests.insert(k, f);
    assert forall|j: int| 0 <= j < requests@.len() && j != k implies #[trigger] requests@[j] == old(
        requests,
    )@[j] by {
        if j < k {
            assert(requests@[j] == old(requests)@[j]);
        } else {
            assert(requests@[j] == old(requests)@[j]);
        }
    }
}

/// The call whose payload stands at position `j` of the merged data when call
/// `i` alone failed.
pub open spec fn skip_index(j: int, i: int) -> int {
    if j < i {
        j
    } else {
        j + 1
    }
}

proof fn lemma_single_failure_prefix(
    calls: Seq<BackendCall>,
    outcomes: Seq<Outcome>,
    i: int,
    n: int,
)
    requires
        calls.len() == outcomes.len(),
        0 <= i < outcomes.len(),
        0 <= n <= outcomes.len(),
        outcomes[i] is Failure,
        forall|j: int| 0 <= j < outcomes.len() && j != i ==> #[trigger] outcomes[j] is Success,
    ensures
        n <= i ==> merged_errors(calls, outcomes, n) == Seq::<BackendError>::empty(),
        n > i ==> merged_errors(calls, outcomes, n) == seq![
            (BackendError { call: i as usize, backend: calls[i].backend, kind: outcomes[i]->kind }),
        ],
        merged_data(calls, outcomes, n).len() == if n <= i {
            n
        } else {
            n - 1
        },
        forall|j: int|
            0 <= j < merged_data(calls, outcomes, n).len() ==> #[trigger] merged_data(
                calls,
                outcomes,
                n,
            )[j] == (PartialPayload {
                call: skip_index(j, i) as usize,
                backend: calls[skip_index(j, i)].backend,
                payload: outcomes[skip_index(j, i)]->payload,
            }),
    decreases n,
{
    if n > 0 {
        lemma_single_failure_prefix(calls, outcomes, i, n - 1);
        let prev = merged_data(calls, outcomes, n - 1);
        if n - 1 != i {
            assert(outcomes[n - 1] is Success);
            let cur = merged_data(calls, outcomes, n);
            assert forall|j: int| 0 <= j < cur.len() implies #[trigger] cur[j] == (PartialPayload {
                call: skip_index(j, i) as usize,
                backend: calls[skip_index(j, i)].backend,
                payload: outcomes[skip_index(j, i)]->payload,
            }) by {
                if j < prev.len() {
                    assert(cur[j] == prev[j]);
                }
            }
        }
    }
}

/// Partial failure: when exactly one call of a plan with at least two calls
/// fails, the merge succeeds with the payloads of the other calls (in plan
/// order), one error entry tagged to the failed call and its backend, and a
/// call count equal to the number of calls.
pub proof fn lemma_single_failure(calls: Seq<BackendCall>, outcomes: Seq<Outcome>, i: int)
    requires
        calls.len() == outcomes.len(),
        calls.len() >= 2,
        0 <= i < outcomes.len(),
        outcomes[i] is Failure,
        forall|j: int| 0 <= j < outcomes.len() && j != i ==> #[trigger] outcomes[j] is Success,
    ensures
        !merge_fails(calls, outcomes),
        merged_errors(calls, outcomes, outcomes.len() as int) == seq![
            (BackendError { call: i as usize, backend: calls[i].backend, kind: outcomes[i]->kind }),
        ],
        merged_data(calls, outcomes, outcomes.len() as int).len() == calls.len() - 1,
        forall|j: int|
            0 <= j < calls.len() - 1 ==> #[trigger] merged_data(
                calls,
                outcomes,
                outcomes.len() as int,
            )[j] == (PartialPayload {
                call: skip_index(j, i) as usize,
                backend: calls[skip_index(j, i)].backend,
                payload: outcomes[skip_index(j, i)]->payload,
            }),
{
    lemma_single_failure_prefix(calls, outcomes, i, outcomes.len() as int);
}

/// Completion order does not matter: two different calls completing in either
/// order leave the same results.
pub proof fn lemma_completion_order(
    results: Seq<Option<Outcome>>,
    cancelled: bool,
    a: int,
    x: Outcome,
    b: int,
    y: Outcome,
)
    requires
        a != b,
    ensures
        record(record(results, cancelled, a, x), cancelled, b, y) == record(
            record(results, cancelled, b, y),
            cancelled,
            a,
            x,
        ),
{
    assert(record(record(results, cancelled, a, x), cancelled, b, y) =~= record(
        record(results, cancelled, b, y),
        cancelled,
        a,
        x,
    ));
}

/// Idempotence: the response is a function of the plan and the outcomes, so
/// the same plan with the same outcomes merges to equal responses.
pub proof fn lemma_merge_deterministic(
    r1: AggregateResponse,
    r2: AggregateResponse,
    calls: Seq<BackendCall>,
    outcomes: Seq<Outcome>,
)
    requires
        is_merge_of(r1, calls, outcomes),
        is_merge_of(r2, calls, outcomes),
    ensures
        r1.data@ == r2.data@,
        r1.errors@ == r2.errors@,
        r1.call_count == r2.call_count,
{
}

/// Cancellation: once a fan-out is cancelled, no completion changes its
/// results.
pub proof fn lemma_cancelled_ignores_completion(
    results: Seq<Option<Outcome>>,
    call: int,
    outcome: Outcome,
)
    ensures
        record(results, true, call, outcome) == results,
{
}

} // verus!
