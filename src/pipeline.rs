//! Onion composition of plugins around the pipeline stages. Plugins are applied
//! in registration order, each one wrapping the stage as decorated so far: on
//! the request path the plugins' before-hooks run first to last, on the
//! response path their after-hooks run last to first. A hook that rejects
//! stops the path there, and its failure is the result.
use vstd::prelude::*;
use crate::callback_plugin::{CallbackPlugin, HookPoint};
use crate::fanout::Outcome;
use crate::messages::{
    all_pass, lemma_ran_concat, lemma_ran_empty, ran, Hook, HookFailure, PlannedRequest, RouterRequest,
    RouterResponse, SubgraphRequest, SubgraphResponse,
};

verus! {

/// Hooks run on the request path at `point`: the plugins first to last.
pub open spec fn inbound_hooks<P: CallbackPlugin>(
    plugins: Seq<P>,
    point: HookPoint,
    backend: Seq<char>,
) -> Seq<Hook>
    decreases plugins.len(),
{
    if plugins.len() == 0 {
        Seq::empty()
    } else {
        inbound_hooks(plugins.drop_last(), point, backend) + plugins.last().hooks(point, backend)
    }
}

/// Hooks run on the response path at `point`: the plugins last to first.
pub open spec fn outbound_hooks<P: CallbackPlugin>(
    plugins: Seq<P>,
    point: HookPoint,
    backend: Seq<char>,
) -> Seq<Hook>
    decreases plugins.len(),
{
    if plugins.len() == 0 {
        Seq::empty()
    } else {
        outbound_hooks(plugins.drop_first(), point, backend) + plugins.first().hooks(point, backend)
    }
}

proof fn lemma_inbound_step<P: CallbackPlugin>(
    plugins: Seq<P>,
    i: int,
    point: HookPoint,
    backend: Seq<char>,
)
    requires
        0 <= i < plugins.len(),
    ensures
        inbound_hooks(plugins.take(i + 1), point, backend) == inbound_hooks(
            plugins.take(i),
            point,
            backend,
        ) + plugins[i].hooks(point, backend),
{
    assert(plugins.take(i + 1).drop_last() =~= plugins.take(i));
}

proof fn lemma_outbound_step<P: CallbackPlugin>(
    plugins: Seq<P>,
    i: int,
    point: HookPoint,
    backend: Seq<char>,
)
    requires
        0 < i <= plugins.len(),
    ensures
        outbound_hooks(plugins.skip(i - 1), point, backend) == outbound_hooks(
            plugins.skip(i),
            point,
            backend,
        ) + plugins[i - 1].hooks(point, backend),
{
    assert(plugins.skip(i - 1).drop_first() =~= plugins.skip(i));
}

/// Runs every plugin's request hooks on the incoming query, before the router stage,
/// first plugin first.
pub fn router_request<P: CallbackPlugin>(
    plugins: &Vec<P>,
    m: RouterRequest,
) -> (r: Result<RouterRequest, HookFailure>)
    ensures
        ran(inbound_hooks(plugins@, HookPoint::BeforeRouter, Seq::empty()), m, r),
{
    let ghost m0 = m;
    proof {
        lemma_ran_empty(m);
        assert(plugins@.take(0) =~= Seq::<P>::empty());
    }
    let mut cur: Result<RouterRequest, HookFailure> = Ok(m);
    let mut i: usize = 0;
    while i < plugins.len()
        invariant
            i <= plugins.len(),
            ran(inbound_hooks(plugins@.take(i as int), HookPoint::BeforeRouter, Seq::empty()), m0, cur),
        decreases plugins.len() - i,
    {
        let ghost prev = cur;
        cur = match cur {
            Ok(x) => plugins[i].before_router(x),
            Err(e) => Err(e),
        };
        proof {
            lemma_inbound_step(plugins@, i as int, HookPoint::BeforeRouter, Seq::empty());
            lemma_ran_concat(
                inbound_hooks(plugins@.take(i as int), HookPoint::BeforeRouter, Seq::empty()),
                plugins@[i as int].hooks(HookPoint::BeforeRouter, Seq::empty()),
                m0,
                prev,
                cur,
            );
        }
        i = i + 1;
    }
    assert(plugins@.take(i as int) =~= plugins@);
    cur
}

/// Runs every plugin's response hooks on the response of the router stage,
/// last plugin first.
pub fn router_response<P: CallbackPlugin>(
    plugins: &Vec<P>,
    m: RouterResponse,
) -> (r: Result<RouterResponse, HookFailure>)
    ensures
        ran(outbound_hooks(plugins@, HookPoint::AfterRouter, Seq::empty()), m, r),
{
    let ghost m0 = m;
    let mut i: usize = plugins.len();
    proof {
        lemma_ran_empty(m);
        assert(plugins@.skip(i as int) =~= Seq::<P>::empty());
    }
    let mut cur: Result<RouterResponse, HookFailure> = Ok(m);
    while i > 0
        invariant
            i <= plugins.len(),
            ran(outbound_hooks(plugins@.skip(i as int), HookPoint::AfterRouter, Seq::empty()), m0, cur),
        decreases i,
    {
        let ghost prev = cur;
        cur = match cur {
            Ok(x) => plugins[i - 1].after_router(x),
            Err(e) => Err(e),
        };
        proof {
            lemma_outbound_step(plugins@, i as int, HookPoint::AfterRouter, Seq::empty());
            lemma_ran_concat(
                outbound_hooks(plugins@.skip(i as int), HookPoint::AfterRouter, Seq::empty()),
                plugins@[i - 1].hooks(HookPoint::AfterRouter, Seq::empty()),
                m0,
                prev,
                cur,
            );
        }
        i = i - 1;
    }
    assert(plugins@.skip(0) =~= plugins@);
    cur
}

/// Runs every plugin's request hooks on the query, before planning,
/// first plugin first.
pub fn query_planning_request<P: CallbackPlugin>(
    plugins: &Vec<P>,
    m: RouterRequest,
) -> (r: Result<RouterRequest, HookFailure>)
    ensures
        ran(inbound_hooks(plugins@, HookPoint::BeforeQueryPlanning, Seq::empty()), m, r),
{
    let ghost m0 = m;
    proof {
        lemma_ran_empty(m);
        assert(plugins@.take(0) =~= Seq::<P>::empty());
    }
    let mut cur: Result<RouterRequest, HookFailure> = Ok(m);
    let mut i: usize = 0;
    while i < plugins.len()
        invariant
            i <= plugins.len(),
            ran(inbound_hooks(plugins@.take(i as int), HookPoint::BeforeQueryPlanning, Seq::empty()), m0, cur),
        decreases plugins.len() - i,
    {
        let ghost prev = cur;
        cur = match cur {
            Ok(x) => plugins[i].before_query_planning(x),
            Err(e) => Err(e),
        };
        proof {
            lemma_inbound_step(plugins@, i as int, HookPoint::BeforeQueryPlanning, Seq::empty());
            lemma_ran_concat(
                inbound_hooks(plugins@.take(i as int), HookPoint::BeforeQueryPlanning, Seq::empty()),
                plugins@[i as int].hooks(HookPoint::BeforeQueryPlanning, Seq::empty()),
                m0,
                prev,
                cur,
            );
        }
        i = i + 1;
    }
    assert(plugins@.take(i as int) =~= plugins@);
    cur
}

/// Runs every plugin's response hooks on the plan that planning produced,
/// last plugin first.
pub fn query_planning_response<P: CallbackPlugin>(
    plugins: &Vec<P>,
    m: PlannedRequest,
) -> (r: Result<PlannedRequest, HookFailure>)
    ensures
        ran(outbound_hooks(plugins@, HookPoint::AfterQueryPlanning, Seq::empty()), m, r),
{
    let ghost m0 = m;
    let mut i: usize = plugins.len();
    proof {
        lemma_ran_empty(m);
        assert(plugins@.skip(i as int) =~= Seq::<P>::empty());
    }
    let mut cur: Result<PlannedRequest, HookFailure> = Ok(m);
    while i > 0
        invariant
            i <= plugins.len(),
            ran(outbound_hooks(plugins@.skip(i as int), HookPoint::AfterQueryPlanning, Seq::empty()), m0, cur),
        decreases i,
    {
        let ghost prev = cur;
        cur = match cur {
            Ok(x) => plugins[i - 1].after_query_planning(x),
            Err(e) => Err(e),
        };
        proof {
            lemma_outbound_step(plugins@, i as int, HookPoint::AfterQueryPlanning, Seq::empty());
            lemma_ran_concat(
                outbound_hooks(plugins@.skip(i as int), HookPoint::AfterQueryPlanning, Seq::empty()),
                plugins@[i - 1].hooks(HookPoint::AfterQueryPlanning, Seq::empty()),
                m0,
                prev,
                cur,
            );
        }
        i = i - 1;
    }
    assert(plugins@.skip(0) =~= plugins@);
    cur
}

/// Runs every plugin's request hooks on the plan, before execution,
/// first plugin first.
pub fn execution_request<P: CallbackPlugin>(
    plugins: &Vec<P>,
    m: PlannedRequest,
) -> (r: Result<PlannedRequest, HookFailure>)
    ensures
        ran(inbound_hooks(plugins@, HookPoint::BeforeExecution, Seq::empty()), m, r),
{
    let ghost m0 = m;
    proof {
        lemma_ran_empty(m);
        assert(plugins@.take(0) =~= Seq::<P>::empty());
    }
    let mut cur: Result<PlannedRequest, HookFailure> = Ok(m);
    let mut i: usize = 0;
    while i < plugins.len()
        invariant
            i <= plugins.len(),
            ran(inbound_hooks(plugins@.take(i as int), HookPoint::BeforeExecution, Seq::empty()), m0, cur),
        decreases plugins.len() - i,
    {
        let ghost prev = cur;
        cur = match cur {
            Ok(x) => plugins[i].before_execution(x),
            Err(e) => Err(e),
        };
        proof {
            lemma_inbound_step(plugins@, i as int, HookPoint::BeforeExecution, Seq::empty());
            lemma_ran_concat(
                inbound_hooks(plugins@.take(i as int), HookPoint::BeforeExecution, Seq::empty()),
                plugins@[i as int].hooks(HookPoint::BeforeExecution, Seq::empty()),
                m0,
                prev,
                cur,
            );
        }
        i = i + 1;
    }
    assert(plugins@.take(i as int) =~= plugins@);
    cur
}

/// Runs every plugin's response hooks on the response of the execution stage,
/// last plugin first.
pub fn execution_response<P: CallbackPlugin>(
    plugins: &Vec<P>,
    m: RouterResponse,
) -> (r: Result<RouterResponse, HookFailure>)
    ensures
        ran(outbound_hooks(plugins@, HookPoint::AfterExecution, Seq::empty()), m, r),
{
    let ghost m0 = m;
    let mut i: usize = plugins.len();
    proof {
        lemma_ran_empty(m);
        assert(plugins@.skip(i as int) =~= Seq::<P>::empty());
    }
    let mut cur: Result<RouterResponse, HookFailure> = Ok(m);
    while i > 0
        invariant
            i <= plugins.len(),
            ran(outbound_hooks(plugins@.skip(i as int), HookPoint::AfterExecution, Seq::empty()), m0, cur),
        decreases i,
    {
        let ghost prev = cur;
        cur = match cur {
            Ok(x) => plugins[i - 1].after_execution(x),
            Err(e) => Err(e),
        };
        proof {
            lemma_outbound_step(plugins@, i as int, HookPoint::AfterExecution, Seq::empty());
            lemma_ran_concat(
                outbound_hooks(plugins@.skip(i as int), HookPoint::AfterExecution, Seq::empty()),
                plugins@[i - 1].hooks(HookPoint::AfterExecution, Seq::empty()),
                m0,
                prev,
                cur,
            );
        }
        i = i - 1;
    }
    assert(plugins@.skip(0) =~= plugins@);
    cur
}

/// Runs every plugin's request hooks on a call to backend `name`, before it is sent,
/// first plugin first.
pub fn subgraph_request<P: CallbackPlugin>(
    plugins: &Vec<P>,
    name: &str,
    m: SubgraphRequest,
) -> (r: Result<SubgraphRequest, HookFailure>)
    ensures
        ran(inbound_hooks(plugins@, HookPoint::BeforeSubgraph, name@), m, r),
{
    let ghost m0 = m;
    proof {
        lemma_ran_empty(m);
        assert(plugins@.take(0) =~= Seq::<P>::empty());
    }
    let mut cur: Result<SubgraphRequest, HookFailure> = Ok(m);
    let mut i: usize = 0;
    while i < plugins.len()
        invariant
            i <= plugins.len(),
            ran(inbound_hooks(plugins@.take(i as int), HookPoint::BeforeSubgraph, name@), m0, cur),
        decreases plugins.len() - i,
    {
        let ghost prev = cur;
        cur = match cur {
            Ok(x) => plugins[i].before_subgraph(name, x),
            Err(e) => Err(e),
        };
        proof {
            lemma_inbound_step(plugins@, i as int, HookPoint::BeforeSubgraph, name@);
            lemma_ran_concat(
                inbound_hooks(plugins@.take(i as int), HookPoint::BeforeSubgraph, name@),
                plugins@[i as int].hooks(HookPoint::BeforeSubgraph, name@),
                m0,
                prev,
                cur,
            );
        }
        i = i + 1;
    }
    assert(plugins@.take(i as int) =~= plugins@);
    cur
}

/// Runs every plugin's response hooks on what backend `name` returned,
/// last plugin first.
pub fn subgraph_response<P: CallbackPlugin>(
    plugins: &Vec<P>,
    name: &str,
    m: SubgraphResponse,
) -> (r: Result<SubgraphResponse, HookFailure>)
    ensures
        ran(outbound_hooks(plugins@, HookPoint::AfterSubgraph, name@), m, r),
{
    let ghost m0 = m;
    let mut i: usize = plugins.len();
    proof {
        lemma_ran_empty(m);
        assert(plugins@.skip(i as int) =~= Seq::<P>::empty());
    }
    let mut cur: Result<SubgraphResponse, HookFailure> = Ok(m);
    while i > 0
        invariant
            i <= plugins.len(),
            ran(outbound_hooks(plugins@.skip(i as int), HookPoint::AfterSubgraph, name@), m0, cur),
        decreases i,
    {
        let ghost prev = cur;
        cur = match cur {
            Ok(x) => plugins[i - 1].after_subgraph(name, x),
            Err(e) => Err(e),
        };
        proof {
            lemma_outbound_step(plugins@, i as int, HookPoint::AfterSubgraph, name@);
            lemma_ran_concat(
                outbound_hooks(plugins@.skip(i as int), HookPoint::AfterSubgraph, name@),
                plugins@[i - 1].hooks(HookPoint::AfterSubgraph, name@),
                m0,
                prev,
                cur,
            );
        }
        i = i - 1;
    }
    assert(plugins@.skip(0) =~= plugins@);
    cur
}

/// Onion order: when each plugin runs one hook of its own at a request point
/// and one at a response point, the request path runs the plugins' hooks in
/// registration order and the response path in reverse registration order.
pub proof fn lemma_onion_order<P: CallbackPlugin>(
    plugins: Seq<P>,
    before_hooks: Seq<Hook>,
    after_hooks: Seq<Hook>,
    before: HookPoint,
    after: HookPoint,
    backend: Seq<char>,
)
    requires
        plugins.len() == before_hooks.len(),
        plugins.len() == after_hooks.len(),
        forall|i: int|
            0 <= i < plugins.len() ==> #[trigger] plugins[i].hooks(before, backend) == seq![
                before_hooks[i],
            ],
        forall|i: int|
            0 <= i < plugins.len() ==> #[trigger] plugins[i].hooks(after, backend) == seq![
                after_hooks[i],
            ],
    ensures
        inbound_hooks(plugins, before, backend) == before_hooks,
        outbound_hooks(plugins, after, backend) == after_hooks.reverse(),
    decreases plugins.len(),
{
    if plugins.len() > 0 {
        let n = plugins.len() - 1;
        let ps = plugins.drop_last();
        assert forall|i: int| 0 <= i < ps.len() implies #[trigger] ps[i].hooks(before, backend) == seq![
            before_hooks.drop_last()[i],
        ] && ps[i].hooks(after, backend) == seq![after_hooks.drop_last()[i]] by {
            assert(ps[i] == plugins[i]);
        }
        lemma_onion_order(ps, before_hooks.drop_last(), after_hooks.drop_last(), before, after, backend);
        assert(plugins[n].hooks(before, backend) == seq![before_hooks[n]]);
        assert(before_hooks.drop_last() + seq![before_hooks[n]] =~= before_hooks);
        let qs = plugins.drop_first();
        assert forall|i: int| 0 <= i < qs.len() implies #[trigger] qs[i].hooks(before, backend) == seq![
            before_hooks.drop_first()[i],
        ] && qs[i].hooks(after, backend) == seq![after_hooks.drop_first()[i]] by {
            assert(qs[i] == plugins[i + 1]);
        }
        lemma_onion_order(qs, before_hooks.drop_first(), after_hooks.drop_first(), before, after, backend);
        assert(plugins[0].hooks(after, backend) == seq![after_hooks[0]]);
        assert(after_hooks.drop_first().reverse() + seq![after_hooks[0]] =~= after_hooks.reverse());
    } else {
        assert(after_hooks.reverse() =~= Seq::<Hook>::empty());
        assert(before_hooks =~= Seq::<Hook>::empty());
    }
}

/// The failure kind of a backend call that a hook rejected.
pub open spec fn rejected_kind() -> Seq<char> {
    "rejected by hook"@
}

/// `r` is the failure of a backend call that a hook rejected.
pub open spec fn is_rejected_call(r: Outcome) -> bool {
    r matches Outcome::Failure { kind } && kind@ == rejected_kind()
}

/// The failure a backend call counts as when a hook rejected it.
pub fn rejected_call() -> (r: Outcome)
    ensures
        is_rejected_call(r),
{
    Outcome::Failure { kind: "rejected by hook".to_string() }
}

/// Prepares a call to backend `name`: every plugin's request hooks, first
/// plugin first. When one rejects, the backend is not called and the call
/// counts as rejected.
pub fn prepare_call<P: CallbackPlugin>(
    plugins: &Vec<P>,
    name: &str,
    call: SubgraphRequest,
) -> (r: Result<SubgraphRequest, Outcome>)
    ensures
        all_pass(inbound_hooks(plugins@, HookPoint::BeforeSubgraph, name@)) ==> (r matches Ok(sent)
            && ran(
            inbound_hooks(plugins@, HookPoint::BeforeSubgraph, name@),
            call,
            Ok::<SubgraphRequest, HookFailure>(sent),
        )),
        !all_pass(inbound_hooks(plugins@, HookPoint::BeforeSubgraph, name@)) ==> (r matches Err(o)
            && is_rejected_call(o)),
{
    match subgraph_request(plugins, name, call) {
        Ok(sent) => Ok(sent),
        Err(_) => Err(rejected_call()),
    }
}

/// The outcome a backend call counts as, given what backend `name` returned.
/// A failure is kept as it is: response hooks do not run on it. A success
/// goes through every plugin's response hooks, last plugin first; it counts
/// as a success when none rejects, and as a rejected call otherwise.
pub fn settle_call<P: CallbackPlugin>(
    plugins: &Vec<P>,
    name: &str,
    received: SubgraphResponse,
) -> (r: Outcome)
    ensures
        received.body is Failure ==> r == received.body,
        received.body is Success && all_pass(
            outbound_hooks(plugins@, HookPoint::AfterSubgraph, name@),
        ) ==> r == received.body,
        received.body is Success && !all_pass(
            outbound_hooks(plugins@, HookPoint::AfterSubgraph, name@),
        ) ==> is_rejected_call(r),
{
    if let Outcome::Failure { .. } = &received.body {
        return received.body;
    }
    match subgraph_response(plugins, name, received) {
        Ok(settled) => settled.body,
        Err(_) => rejected_call(),
    }
}

/// Why a request produced no response.
#[derive(Clone, Copy, PartialEq, Eq, Debug, Structural)]
pub enum RequestFailure {
    /// A hook rejected the request or its response.
    Hook(HookFailure),
    /// The execution stage failed: no backend result could be merged.
    Fanout(crate::fanout::FanoutFailure),
}

/// The hook-level view of a request's result: a fan-out failure never
/// reaches the hooks, so only the other two cases have one.
pub open spec fn hook_result(r: Result<RouterResponse, RequestFailure>) -> Result<
    RouterResponse,
    HookFailure,
> {
    match r {
        Ok(o) => Ok(o),
        Err(RequestFailure::Hook(h)) => Err(h),
        Err(RequestFailure::Fanout(_)) => Err(HookFailure { tag: 0 }),
    }
}

/// The response path of the execution and router stages on the execution
/// stage's result. A failed stage is passed on unchanged and no response hook
/// runs on it; a response goes through every plugin's execution response
/// hooks and then its router response hooks, each path last plugin first.
pub fn respond<P: CallbackPlugin>(
    plugins: &Vec<P>,
    stage: Result<RouterResponse, crate::fanout::FanoutFailure>,
) -> (r: Result<RouterResponse, RequestFailure>)
    ensures
        stage matches Err(f) ==> r == Err::<RouterResponse, RequestFailure>(
            RequestFailure::Fanout(f),
        ),
        stage matches Ok(m) ==> (!(r matches Err(RequestFailure::Fanout(_))) && ran(
            outbound_hooks(plugins@, HookPoint::AfterExecution, Seq::empty()) + outbound_hooks(
                plugins@,
                HookPoint::AfterRouter,
                Seq::empty(),
            ),
            m,
            hook_result(r),
        )),
{
    match stage {
        Err(f) => Err(RequestFailure::Fanout(f)),
        Ok(m) => {
            let ghost m0 = m;
            let mid = execution_response(plugins, m);
            let ghost mid0 = mid;
            let out = match mid {
                Ok(x) => router_response(plugins, x),
                Err(e) => Err(e),
            };
            proof {
                lemma_ran_concat(
                    outbound_hooks(plugins@, HookPoint::AfterExecution, Seq::empty()),
                    outbound_hooks(plugins@, HookPoint::AfterRouter, Seq::empty()),
                    m0,
                    mid0,
                    out,
                );
            }
            match out {
                Ok(o) => Ok(o),
                Err(h) => Err(RequestFailure::Hook(h)),
            }
        },
    }
}

} // verus!
