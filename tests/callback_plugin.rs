use router_pipeline::callback_plugin::{builder, CallbackPlugin, ConfigurationError, HookPoint};
use router_pipeline::fanout::{BackendCall, Outcome};
use router_pipeline::messages::{Envelope, Hook, HookFailure};

fn call(backend: &str) -> BackendCall {
    BackendCall { backend: backend.to_string(), payload: "{ q }".to_string() }
}

#[test]
fn unset_hooks_are_identity() {
    let plugin = builder().build().unwrap();
    let out = plugin.before_router(Envelope::new("Hello1".to_string())).unwrap();
    assert_eq!(out.body, "Hello1");
    assert!(out.trail.is_empty());
    let out = plugin.before_subgraph("books", Envelope::new(call("books"))).unwrap();
    assert_eq!(out.body, call("books"));
    assert!(out.trail.is_empty());
}

#[test]
fn stage_hooks_run_in_their_slot() {
    let plugin = builder()
        .with_before_router(Hook::new(1))
        .with_after_router(Hook::new(2))
        .with_before_query_planning(Hook::new(3))
        .with_after_query_planning(Hook::new(4))
        .with_before_execution(Hook::new(5))
        .with_after_execution(Hook::new(6))
        .build()
        .unwrap();
    assert_eq!(plugin.before_router(Envelope::new("q".to_string())).unwrap().trail, vec![1]);
    assert_eq!(plugin.before_query_planning(Envelope::new("q".to_string())).unwrap().trail, vec![3]);
    let out = Envelope::new(Outcome::Success { payload: "p".to_string() });
    assert_eq!(plugin.after_subgraph("books", out).unwrap().trail, Vec::<u64>::new());
}

#[test]
fn any_backend_hooks_wrap_named_hooks() {
    let plugin = builder()
        .with_before_any_subgraph(Hook::new(10))
        .with_before_any_subgraph(Hook::new(11))
        .with_before_subgraph("books".to_string(), Hook::new(20))
        .with_after_subgraph("books".to_string(), Hook::new(30))
        .with_after_any_subgraph(Hook::new(40))
        .with_after_any_subgraph(Hook::new(41))
        .build()
        .unwrap();
    let req = plugin.before_subgraph("books", Envelope::new(call("books"))).unwrap();
    assert_eq!(req.trail, vec![10, 11, 20]);
    assert_eq!(req.body, call("books"));
    let resp = plugin
        .after_subgraph(
            "books",
            Envelope::new(Outcome::Success { payload: "{\"title\":\"X\"}".to_string() }),
        )
        .unwrap();
    assert_eq!(resp.trail, vec![30, 40, 41]);
    let other = plugin.before_subgraph("authors", Envelope::new(call("authors"))).unwrap();
    assert_eq!(other.trail, vec![10, 11]);
}

#[test]
fn duplicate_stage_hook_is_a_configuration_error() {
    let b = builder().with_before_router(Hook::new(1)).with_before_router(Hook::new(2));
    let out = b.before_router(Envelope::new("q".to_string())).unwrap();
    assert_eq!(out.trail, vec![1]);
    assert_eq!(
        b.build().err(),
        Some(ConfigurationError::DuplicateHook { point: HookPoint::BeforeRouter, backend: None })
    );
}

#[test]
fn duplicate_named_hook_is_a_configuration_error() {
    let b = builder()
        .with_after_subgraph("books".to_string(), Hook::new(1))
        .with_after_subgraph("authors".to_string(), Hook::new(2))
        .with_after_subgraph("books".to_string(), Hook::new(3));
    let resp =
        b.after_subgraph("books", Envelope::new(Outcome::Failure { kind: "x".to_string() })).unwrap();
    assert_eq!(resp.trail, vec![1]);
    assert_eq!(
        b.build().err(),
        Some(ConfigurationError::DuplicateHook {
            point: HookPoint::AfterSubgraph,
            backend: Some("books".to_string()),
        })
    );
}

#[test]
fn first_duplicate_is_reported() {
    let b = builder()
        .with_after_execution(Hook::new(1))
        .with_after_execution(Hook::new(2))
        .with_before_subgraph("books".to_string(), Hook::new(3))
        .with_before_subgraph("books".to_string(), Hook::new(4));
    assert_eq!(
        b.build().err(),
        Some(ConfigurationError::DuplicateHook { point: HookPoint::AfterExecution, backend: None })
    );
}

#[test]
fn same_name_on_before_and_after_is_no_duplicate() {
    let b = builder()
        .with_before_subgraph("books".to_string(), Hook::new(1))
        .with_after_subgraph("books".to_string(), Hook::new(2));
    assert!(b.build().is_ok());
}

#[test]
fn hook_records_its_tag() {
    let h = Hook::new(7);
    let out = h.apply(h.apply(Envelope::new(5u8)).unwrap()).unwrap();
    assert_eq!(out.body, 5u8);
    assert_eq!(out.trail, vec![7, 7]);
}

#[test]
fn rejecting_hook_fails_with_its_tag() {
    let h = Hook::rejecting(9);
    assert_eq!(h.apply(Envelope::new(1u8)).err(), Some(HookFailure { tag: 9 }));
}

#[test]
fn rejecting_any_hook_stops_before_named_hook() {
    let plugin = builder()
        .with_before_any_subgraph(Hook::new(1))
        .with_before_any_subgraph(Hook::rejecting(2))
        .with_before_subgraph("books".to_string(), Hook::rejecting(3))
        .build()
        .unwrap();
    let r = plugin.before_subgraph("books", Envelope::new(call("books")));
    assert_eq!(r.err(), Some(HookFailure { tag: 2 }));
}

#[test]
fn rejecting_named_after_hook_skips_any_hooks() {
    let plugin = builder()
        .with_after_subgraph("books".to_string(), Hook::rejecting(4))
        .with_after_any_subgraph(Hook::rejecting(5))
        .build()
        .unwrap();
    let r = plugin.after_subgraph("books", Envelope::new(Outcome::Failure { kind: "x".to_string() }));
    assert_eq!(r.err(), Some(HookFailure { tag: 4 }));
    let r = plugin.after_subgraph("authors", Envelope::new(Outcome::Failure { kind: "x".to_string() }));
    assert_eq!(r.err(), Some(HookFailure { tag: 5 }));
}

#[test]
fn set_header_hook_sets_the_header() {
    let h = Hook::set_header(3, "A".to_string(), "HEADER_A".to_string());
    let out = h.apply(Envelope::new("Hello1".to_string())).unwrap();
    assert_eq!(out.body, "Hello1");
    assert_eq!(out.header("A"), Some("HEADER_A".to_string()));
    assert_eq!(out.header("B"), None);
    assert_eq!(out.trail, vec![3]);
}

#[test]
fn named_hook_overrides_header_of_any_hook() {
    let plugin = builder()
        .with_before_any_subgraph(Hook::set_header(1, "route".to_string(), "any".to_string()))
        .with_before_subgraph(
            "books".to_string(),
            Hook::set_header(2, "route".to_string(), "books".to_string()),
        )
        .build()
        .unwrap();
    let req = plugin.before_subgraph("books", Envelope::new(call("books"))).unwrap();
    assert_eq!(req.header("route"), Some("books".to_string()));
    let req = plugin.before_subgraph("authors", Envelope::new(call("authors"))).unwrap();
    assert_eq!(req.header("route"), Some("any".to_string()));
}
