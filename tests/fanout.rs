use router_pipeline::callback_plugin::{builder, ConfigurationError};
use router_pipeline::messages::{Envelope, Hook};
use router_pipeline::pipeline::{prepare_call, respond, router_request, settle_call};
use router_pipeline::fanout::{
    cancel_request, merge, resolve, BackendCall, BackendError, Fanout, FanoutFailure, Outcome, PartialPayload,
    Plan, Registry,
};

fn call(backend: &str, payload: &str) -> BackendCall {
    BackendCall { backend: backend.to_string(), payload: payload.to_string() }
}

fn ok(payload: &str) -> Outcome {
    Outcome::Success { payload: payload.to_string() }
}

fn failed(kind: &str) -> Outcome {
    Outcome::Failure { kind: kind.to_string() }
}

fn registry(names: &[&str]) -> Registry {
    let mut r = Registry::new();
    for n in names {
        r.register(n.to_string()).unwrap();
    }
    r
}

#[test]
fn books_succeed_authors_fail() {
    let plan = Plan { calls: vec![call("books", "{ book }"), call("authors", "{ author }")] };
    let reg = registry(&["books", "authors"]);
    let mut f = Fanout::start(plan, &reg).unwrap();
    assert_eq!(f.pending(), vec![0, 1]);
    f.complete(1, failed("unreachable"));
    assert!(f.finish().is_none());
    f.complete(0, ok("{\"title\":\"X\"}"));
    let resp = f.finish().unwrap().unwrap();
    assert_eq!(
        resp.data,
        vec![PartialPayload {
            call: 0,
            backend: "books".to_string(),
            payload: "{\"title\":\"X\"}".to_string(),
        }]
    );
    assert_eq!(
        resp.errors,
        vec![BackendError {
            call: 1,
            backend: "authors".to_string(),
            kind: "unreachable".to_string(),
        }]
    );
    assert_eq!(resp.call_count, 2);
}

#[test]
fn unknown_backend_is_unresolvable() {
    let plan = Plan { calls: vec![call("books", "q"), call("reviews", "q")] };
    let reg = registry(&["books", "authors"]);
    let r = Fanout::start(plan.clone(), &reg);
    assert_eq!(
        r.err(),
        Some(ConfigurationError::UnresolvableBackend { name: "reviews".to_string() })
    );
    assert_eq!(
        resolve(&plan, &reg),
        Err(ConfigurationError::UnresolvableBackend { name: "reviews".to_string() })
    );
}

#[test]
fn first_unknown_backend_is_named() {
    let plan = Plan { calls: vec![call("x", "q"), call("y", "q")] };
    let reg = registry(&["books"]);
    assert_eq!(
        resolve(&plan, &reg),
        Err(ConfigurationError::UnresolvableBackend { name: "x".to_string() })
    );
}

#[test]
fn one_failure_among_three() {
    let plan = Plan { calls: vec![call("a", "1"), call("b", "2"), call("c", "3")] };
    let resp = merge(&plan, &vec![ok("A"), failed("timeout"), ok("C")]).unwrap();
    assert_eq!(resp.data.len(), 2);
    assert_eq!(resp.data[0].call, 0);
    assert_eq!(resp.data[0].payload, "A");
    assert_eq!(resp.data[1].call, 2);
    assert_eq!(resp.data[1].backend, "c");
    assert_eq!(
        resp.errors,
        vec![BackendError { call: 1, backend: "b".to_string(), kind: "timeout".to_string() }]
    );
    assert_eq!(resp.call_count, 3);
}

#[test]
fn completion_order_does_not_matter() {
    let plan = Plan { calls: vec![call("a", "1"), call("b", "2"), call("c", "3")] };
    let reg = registry(&["a", "b", "c"]);
    let mut f = Fanout::start(plan.clone(), &reg).unwrap();
    let mut g = Fanout::start(plan, &reg).unwrap();
    f.complete(0, ok("A"));
    f.complete(1, failed("down"));
    f.complete(2, ok("C"));
    g.complete(2, ok("C"));
    g.complete(0, ok("A"));
    g.complete(1, failed("down"));
    assert_eq!(f.finish(), g.finish());
    assert_eq!(f.finish(), f.finish());
}

#[test]
fn all_failed_is_a_fanout_failure() {
    let plan = Plan { calls: vec![call("a", "1"), call("b", "2")] };
    assert_eq!(merge(&plan, &vec![failed("x"), failed("y")]), Err(FanoutFailure::NoSuccessfulCall));
}

#[test]
fn empty_plan_merges_to_empty_response() {
    let plan = Plan { calls: vec![] };
    let resp = merge(&plan, &vec![]).unwrap();
    assert!(resp.data.is_empty());
    assert!(resp.errors.is_empty());
    assert_eq!(resp.call_count, 0);
    let f = Fanout::start(plan, &Registry::new()).unwrap();
    assert!(f.finish().unwrap().is_ok());
}

#[test]
fn cancellation_drops_pending_calls() {
    let plan = Plan { calls: vec![call("a", "1"), call("b", "2"), call("c", "3")] };
    let reg = registry(&["a", "b", "c"]);
    let mut f = Fanout::start(plan.clone(), &reg).unwrap();
    let mut sibling = Fanout::start(plan, &reg).unwrap();
    f.complete(0, ok("A"));
    sibling.complete(0, ok("A"));
    assert_eq!(f.pending(), vec![1, 2]);
    f.cancel();
    assert!(f.pending().is_empty());
    f.complete(1, ok("B"));
    f.complete(2, ok("C"));
    assert!(f.finish().is_none());
    assert_eq!(sibling.pending(), vec![1, 2]);
    sibling.complete(1, ok("B"));
    sibling.complete(2, ok("C"));
    assert_eq!(sibling.finish().unwrap().unwrap().data.len(), 3);
}

#[test]
fn second_result_for_a_call_is_ignored() {
    let plan = Plan { calls: vec![call("a", "1")] };
    let reg = registry(&["a"]);
    let mut f = Fanout::start(plan, &reg).unwrap();
    f.complete(0, ok("first"));
    f.complete(0, ok("second"));
    f.complete(5, ok("unknown"));
    assert_eq!(f.finish().unwrap().unwrap().data[0].payload, "first");
}

#[test]
fn registering_a_backend_twice_is_an_error() {
    let mut reg = registry(&["books"]);
    assert_eq!(
        reg.register("books".to_string()),
        Err(ConfigurationError::DuplicateBackend { name: "books".to_string() })
    );
    assert!(reg.contains(&"books".to_string()));
    assert!(!reg.contains(&"authors".to_string()));
}

#[test]
fn custom_wiring() {
    let tracing = builder()
        .with_before_router(Hook::set_header(1, "A".to_string(), "HEADER_A".to_string()))
        .with_before_any_subgraph(Hook::new(2))
        .build()
        .unwrap();
    let plugins = vec![tracing];
    let request = router_request(&plugins, Envelope::new("Hello1".to_string())).unwrap();
    assert_eq!(request.header("A"), Some("HEADER_A".to_string()));
    let reg = registry(&["books", "authors"]);
    let plan = Plan { calls: vec![call("books", &request.body), call("authors", &request.body)] };
    let mut f = Fanout::start(plan.clone(), &reg).unwrap();
    for i in f.pending() {
        let c = plan.calls[i].clone();
        let name = c.backend.clone();
        let sent = prepare_call(&plugins, &name, Envelope::new(c)).unwrap();
        assert_eq!(sent.trail, vec![2]);
        let received =
            Envelope { body: ok("{}"), headers: sent.headers, trail: sent.trail };
        f.complete(i, settle_call(&plugins, &name, received));
    }
    let resp = respond(&plugins, f.finish().unwrap().map(Envelope::new)).unwrap();
    assert_eq!(resp.body.call_count, 2);
    assert!(resp.body.errors.is_empty());
}

#[test]
fn cancelling_one_request_leaves_siblings() {
    let plan = Plan { calls: vec![call("a", "1"), call("b", "2"), call("c", "3")] };
    let reg = registry(&["a", "b", "c"]);
    let mut requests = vec![
        Fanout::start(plan.clone(), &reg).unwrap(),
        Fanout::start(plan, &reg).unwrap(),
    ];
    requests[0].complete(0, ok("A"));
    requests[1].complete(0, ok("A"));
    cancel_request(&mut requests, 0);
    assert!(requests[0].pending().is_empty());
    assert!(requests[0].finish().is_none());
    assert_eq!(requests[1].pending(), vec![1, 2]);
    requests[1].complete(1, ok("B"));
    requests[1].complete(2, failed("down"));
    let resp = requests[1].finish().unwrap().unwrap();
    assert_eq!(resp.data.len(), 2);
    assert_eq!(resp.errors.len(), 1);
}
