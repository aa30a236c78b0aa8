use router_pipeline::callback_plugin::{builder, CallbackPluginBuilder};
use router_pipeline::fanout::{AggregateResponse, BackendCall, FanoutFailure, Outcome, Plan};
use router_pipeline::messages::{Envelope, Hook, HookFailure};
use router_pipeline::pipeline::{
    execution_request, execution_response, query_planning_request, query_planning_response,
    prepare_call, respond, router_request, router_response, settle_call, subgraph_request,
    subgraph_response, RequestFailure,
};

fn plugin(tag: u64) -> CallbackPluginBuilder {
    builder()
        .with_before_router(Hook::new(tag))
        .with_after_router(Hook::new(tag))
        .with_before_query_planning(Hook::new(tag))
        .with_after_query_planning(Hook::new(tag))
        .with_before_execution(Hook::new(tag))
        .with_after_execution(Hook::new(tag))
        .with_before_any_subgraph(Hook::new(tag))
        .with_after_any_subgraph(Hook::new(tag))
        .build()
        .unwrap()
}

fn empty_response() -> AggregateResponse {
    AggregateResponse { data: vec![], errors: vec![], call_count: 0 }
}

#[test]
fn onion_order_on_every_stage() {
    let plugins = vec![plugin(1), plugin(2), plugin(3)];
    let plan = Plan { calls: vec![] };
    assert_eq!(router_request(&plugins, Envelope::new("Hello1".to_string())).unwrap().trail, vec![1, 2, 3]);
    assert_eq!(router_response(&plugins, Envelope::new(empty_response())).unwrap().trail, vec![3, 2, 1]);
    assert_eq!(
        query_planning_request(&plugins, Envelope::new("Hello1".to_string())).unwrap().trail,
        vec![1, 2, 3]
    );
    assert_eq!(query_planning_response(&plugins, Envelope::new(plan.clone())).unwrap().trail, vec![3, 2, 1]);
    assert_eq!(execution_request(&plugins, Envelope::new(plan)).unwrap().trail, vec![1, 2, 3]);
    assert_eq!(execution_response(&plugins, Envelope::new(empty_response())).unwrap().trail, vec![3, 2, 1]);
    let call = BackendCall { backend: "books".to_string(), payload: "{ title }".to_string() };
    let req = subgraph_request(&plugins, "books", Envelope::new(call.clone())).unwrap();
    assert_eq!(req.trail, vec![1, 2, 3]);
    assert_eq!(req.body, call);
    let resp = subgraph_response(
        &plugins,
        "books",
        Envelope::new(Outcome::Success { payload: "{}".to_string() }),
    )
    .unwrap();
    assert_eq!(resp.trail, vec![3, 2, 1]);
}

#[test]
fn onion_order_keeps_the_body() {
    let plugins = vec![plugin(5), plugin(6)];
    let out = router_request(&plugins, Envelope::new("Hello1".to_string())).unwrap();
    assert_eq!(out.body, "Hello1");
    assert_eq!(out.trail, vec![5, 6]);
}

#[test]
fn no_plugins_is_the_bare_stage() {
    let plugins: Vec<CallbackPluginBuilder> = vec![];
    let out = router_response(&plugins, Envelope::new(empty_response())).unwrap();
    assert!(out.trail.is_empty());
}

#[test]
fn named_and_any_hooks_nest_inside_each_plugin() {
    let first = builder()
        .with_before_any_subgraph(Hook::new(1))
        .with_before_subgraph("books".to_string(), Hook::new(2))
        .with_after_subgraph("books".to_string(), Hook::new(3))
        .with_after_any_subgraph(Hook::new(4))
        .build()
        .unwrap();
    let second = builder()
        .with_before_any_subgraph(Hook::new(5))
        .with_before_subgraph("books".to_string(), Hook::new(6))
        .with_after_subgraph("books".to_string(), Hook::new(7))
        .with_after_any_subgraph(Hook::new(8))
        .build()
        .unwrap();
    let plugins = vec![first, second];
    let call = BackendCall { backend: "books".to_string(), payload: "q".to_string() };
    assert_eq!(subgraph_request(&plugins, "books", Envelope::new(call)).unwrap().trail, vec![1, 2, 5, 6]);
    let resp = Envelope::new(Outcome::Failure { kind: "unreachable".to_string() });
    assert_eq!(subgraph_response(&plugins, "books", resp).unwrap().trail, vec![7, 8, 3, 4]);
}

#[test]
fn rejecting_before_hook_stops_the_request_path() {
    let guard = builder().with_before_router(Hook::rejecting(20)).build().unwrap();
    let plugins = vec![plugin(1), guard, plugin(3)];
    let r = router_request(&plugins, Envelope::new("Hello1".to_string()));
    assert_eq!(r.err(), Some(HookFailure { tag: 20 }));
}

#[test]
fn first_rejection_on_the_response_path_is_the_last_plugin() {
    let early = builder().with_after_execution(Hook::rejecting(1)).build().unwrap();
    let late = builder().with_after_execution(Hook::rejecting(2)).build().unwrap();
    let plugins = vec![early, late];
    let r = execution_response(&plugins, Envelope::new(empty_response()));
    assert_eq!(r.err(), Some(HookFailure { tag: 2 }));
}

fn header_plugin(tag: u64, value: &str) -> CallbackPluginBuilder {
    builder()
        .with_before_router(Hook::set_header(tag, "A".to_string(), value.to_string()))
        .with_after_router(Hook::set_header(tag, "A".to_string(), value.to_string()))
        .build()
        .unwrap()
}

#[test]
fn hooks_transform_headers_in_onion_order() {
    let plugins = vec![header_plugin(1, "first"), header_plugin(2, "second")];
    let req = router_request(&plugins, Envelope::new("Hello1".to_string())).unwrap();
    assert_eq!(req.header("A"), Some("second".to_string()));
    assert_eq!(req.headers.len(), 2);
    let resp = router_response(&plugins, Envelope::new(empty_response())).unwrap();
    assert_eq!(resp.header("A"), Some("first".to_string()));
    assert_eq!(resp.trail, vec![2, 1]);
}

#[test]
fn settle_call_keeps_outcome_or_reports_rejection() {
    let plugins = vec![plugin(1)];
    let ok = Envelope::new(Outcome::Success { payload: "{}".to_string() });
    assert_eq!(settle_call(&plugins, "books", ok), Outcome::Success { payload: "{}".to_string() });
    let guard = builder().with_after_subgraph("books".to_string(), Hook::rejecting(9)).build().unwrap();
    let plugins = vec![plugin(1), guard];
    let ok = Envelope::new(Outcome::Success { payload: "{}".to_string() });
    assert_eq!(
        settle_call(&plugins, "books", ok),
        Outcome::Failure { kind: "rejected by hook".to_string() }
    );
}

#[test]
fn settle_call_keeps_backend_failure() {
    let guard = builder().with_after_subgraph("authors".to_string(), Hook::rejecting(9)).build().unwrap();
    let plugins = vec![plugin(1), guard];
    let failed = Envelope::new(Outcome::Failure { kind: "unreachable".to_string() });
    assert_eq!(
        settle_call(&plugins, "authors", failed),
        Outcome::Failure { kind: "unreachable".to_string() }
    );
}

#[test]
fn prepare_call_rejected_by_hook() {
    let guard = builder().with_before_subgraph("books".to_string(), Hook::rejecting(4)).build().unwrap();
    let plugins = vec![plugin(1), guard];
    let call = BackendCall { backend: "books".to_string(), payload: "q".to_string() };
    assert_eq!(
        prepare_call(&plugins, "books", Envelope::new(call.clone())).err(),
        Some(Outcome::Failure { kind: "rejected by hook".to_string() })
    );
    let sent = prepare_call(&plugins, "authors", Envelope::new(call.clone())).unwrap();
    assert_eq!(sent.body, call);
    assert_eq!(sent.trail, vec![1]);
}

#[test]
fn respond_runs_execution_then_router_hooks() {
    let plugins = vec![plugin(1), plugin(2)];
    let resp = respond(&plugins, Ok(Envelope::new(empty_response()))).unwrap();
    assert_eq!(resp.trail, vec![2, 1, 2, 1]);
}

#[test]
fn respond_passes_stage_failure_unchanged() {
    let guard = builder().with_after_execution(Hook::rejecting(3)).build().unwrap();
    let plugins = vec![guard];
    assert_eq!(
        respond(&plugins, Err(FanoutFailure::NoSuccessfulCall)).err(),
        Some(RequestFailure::Fanout(FanoutFailure::NoSuccessfulCall))
    );
    assert_eq!(
        respond(&plugins, Ok(Envelope::new(empty_response()))).err(),
        Some(RequestFailure::Hook(HookFailure { tag: 3 }))
    );
}
