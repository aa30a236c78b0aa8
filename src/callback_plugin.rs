//! The callback adapter: a builder of optional hooks, one slot per hook point
//! (and per backend name for the named backend hooks), that behaves as a plugin.
use vstd::prelude::*;
use crate::messages::{
    apply_all, apply_opt, hooks_of_opt, lemma_ran_concat, ran, Hook, HookFailure, PlannedRequest,
    RouterRequest, RouterResponse, SubgraphRequest, SubgraphResponse,
};

verus! {

/// The points at which a plugin can intercept the pipeline.
#[derive(Clone, Copy, PartialEq, Eq, Debug, Structural)]
pub enum HookPoint {
    BeforeRouter,
    AfterRouter,
    BeforeQueryPlanning,
    AfterQueryPlanning,
    BeforeExecution,
    AfterExecution,
    BeforeSubgraph,
    AfterSubgraph,
}

/// Errors in how the pipeline was configured.
#[derive(Clone, Debug, PartialEq, Eq)]
pub enum ConfigurationError {
    /// A hook point (for the backend hooks: a hook point and backend name) was
    /// registered twice.
    DuplicateHook { point: HookPoint, backend: Option<String> },
    /// A plan names a backend that the registry does not hold.
    UnresolvableBackend { name: String },
    /// A backend name was registered twice in the registry.
    DuplicateBackend { name: String },
}

/// Whether a hook point is one of the per-backend points.
pub open spec fn is_backend_point(p: HookPoint) -> bool {
    p == HookPoint::BeforeSubgraph || p == HookPoint::AfterSubgraph
}

/// A plugin: a request transform and a response transform per stage.
/// `hooks(p, name)` is the list of hooks that point `p` runs, in order (for
/// the backend points, on backend `name`).
pub trait CallbackPlugin {
    spec fn hooks(&self, point: HookPoint, backend: Seq<char>) -> Seq<Hook>;

    fn before_router(&self, r: RouterRequest) -> (out: Result<RouterRequest, HookFailure>)
        ensures
            ran(self.hooks(HookPoint::BeforeRouter, Seq::empty()), r, out),
    ;

    fn after_router(&self, r: RouterResponse) -> (out: Result<RouterResponse, HookFailure>)
        ensures
            ran(self.hooks(HookPoint::AfterRouter, Seq::empty()), r, out),
    ;

    fn before_query_planning(&self, r: RouterRequest) -> (out: Result<RouterRequest, HookFailure>)
        ensures
            ran(self.hooks(HookPoint::BeforeQueryPlanning, Seq::empty()), r, out),
    ;

    fn after_query_planning(&self, r: PlannedRequest) -> (out: Result<PlannedRequest, HookFailure>)
        ensures
            ran(self.hooks(HookPoint::AfterQueryPlanning, Seq::empty()), r, out),
    ;

    fn before_execution(&self, r: PlannedRequest) -> (out: Result<PlannedRequest, HookFailure>)
        ensures
            ran(self.hooks(HookPoint::BeforeExecution, Seq::empty()), r, out),
    ;

    fn after_execution(&self, r: RouterResponse) -> (out: Result<RouterResponse, HookFailure>)
        ensures
            ran(self.hooks(HookPoint::AfterExecution, Seq::empty()), r, out),
    ;

    fn before_subgraph(&self, name: &str, r: SubgraphRequest) -> (out: Result<SubgraphRequest, HookFailure>)
        ensures
            ran(self.hooks(HookPoint::BeforeSubgraph, name@), r, out),
    ;

    fn after_subgraph(&self, name: &str, r: SubgraphResponse) -> (out: Result<SubgraphResponse, HookFailure>)
        ensures
            ran(self.hooks(HookPoint::AfterSubgraph, name@), r, out),
    ;
}

/// The hook registered for `name` in a list of named hooks, if any.
pub open spec fn lookup(entries: Seq<(String, Hook)>, name: Seq<char>) -> Option<Hook>
    decreases entries.len(),
{
    if entries.len() == 0 {
        None
    } else if entries.last().0@ == name {
        Some(entries.last().1)
    } else {
        lookup(entries.drop_last(), name)
    }
}

/// No backend name occurs twice in a list of named hooks.
pub open spec fn names_unique(entries: Seq<(String, Hook)>) -> bool {
    forall|i: int, j: int|
        0 <= i < j < entries.len() ==> #[trigger] entries[i].0@ != #[trigger] entries[j].0@
}

/// Sparse set of hooks: at most one per stage hook point, any number of
/// any-backend hooks, and at most one named hook per backend name and point.
/// A second registration of an occupied slot is recorded as the first
/// configuration error and leaves the slot as it was.
#[derive(Clone)]
pub struct CallbackPluginBuilder {
    before_router: Option<Hook>,
    after_router: Option<Hook>,
    before_query_planning: Option<Hook>,
    after_query_planning: Option<Hook>,
    before_execution: Option<Hook>,
    after_execution: Option<Hook>,
    before_any_subgraph: Vec<Hook>,
    after_any_subgraph: Vec<Hook>,
    before_subgraph: Vec<(String, Hook)>,
    after_subgraph: Vec<(String, Hook)>,
    conflict: Option<ConfigurationError>,
}

/// An empty builder: every hook point is the identity.
pub fn builder() -> (r: CallbackPluginBuilder)
    ensures
        r.wf(),
        r.conflict() is None,
        forall|p: HookPoint| #[trigger] r.slot(p) is None,
        forall|p: HookPoint| #[trigger] r.any_hooks(p) == Seq::<Hook>::empty(),
        forall|p: HookPoint, n: Seq<char>| #[trigger] r.named(p, n) is None,
        forall|p: HookPoint, n: Seq<char>| #[trigger] r.hooks(p, n) == Seq::<Hook>::empty(),
{
    CallbackPluginBuilder::new()
}

impl CallbackPluginBuilder {
    /// The hook in the slot of a stage hook point (none for the backend points).
    pub closed spec fn slot(&self, p: HookPoint) -> Option<Hook> {
        match p {
            HookPoint::BeforeRouter => self.before_router,
            HookPoint::AfterRouter => self.after_router,
            HookPoint::BeforeQueryPlanning => self.before_query_planning,
            HookPoint::AfterQueryPlanning => self.after_query_planning,
            HookPoint::BeforeExecution => self.before_execution,
            HookPoint::AfterExecution => self.after_execution,
            _ => None,
        }
    }

    /// The any-backend hooks of a backend point, in registration order.
    pub closed spec fn any_hooks(&self, p: HookPoint) -> Seq<Hook> {
        match p {
            HookPoint::BeforeSubgraph => self.before_any_subgraph@,
            HookPoint::AfterSubgraph => self.after_any_subgraph@,
            _ => Seq::empty(),
        }
    }

    /// The hook registered for backend `name` at a backend point.
    pub closed spec fn named(&self, p: HookPoint, name: Seq<char>) -> Option<Hook> {
        match p {
            HookPoint::BeforeSubgraph => lookup(self.before_subgraph@, name),
            HookPoint::AfterSubgraph => lookup(self.after_subgraph@, name),
            _ => None,
        }
    }

    /// The first duplicate registration, if there was one.
    pub closed spec fn conflict(&self) -> Option<ConfigurationError> {
        self.conflict
    }

    /// Well-formed: the named hooks hold each backend name once.
    pub closed spec fn wf(&self) -> bool {
        names_unique(self.before_subgraph@) && names_unique(self.after_subgraph@)
    }

    /// Whether registering at `p` (for backend `name`) would be a duplicate.
    pub open spec fn occupied(&self, p: HookPoint, name: Seq<char>) -> bool {
        if is_backend_point(p) {
            self.named(p, name) is Some
        } else {
            self.slot(p) is Some
        }
    }

    /// The conflict after a duplicate registration at `p`: the first one is kept.
    pub open spec fn conflict_after(&self, p: HookPoint, backend: Option<String>) -> Option<
        ConfigurationError,
    > {
        if self.conflict() is Some {
            self.conflict()
        } else {
            Some(ConfigurationError::DuplicateHook { point: p, backend })
        }
    }

    pub fn new() -> (r: CallbackPluginBuilder)
        ensures
            r.wf(),
            r.conflict() is None,
            forall|p: HookPoint| #[trigger] r.slot(p) is None,
            forall|p: HookPoint| #[trigger] r.any_hooks(p) == Seq::<Hook>::empty(),
            forall|p: HookPoint, n: Seq<char>| #[trigger] r.named(p, n) is None,
            forall|p: HookPoint, n: Seq<char>| #[trigger] r.hooks(p, n) == Seq::<Hook>::empty(),
    {
        let r = CallbackPluginBuilder {
            before_router: None,
            after_router: None,
            before_query_planning: None,
            after_query_planning: None,
            before_execution: None,
            after_execution: None,
            before_any_subgraph: Vec::new(),
            after_any_subgraph: Vec::new(),
            before_subgraph: Vec::new(),
            after_subgraph: Vec::new(),
            conflict: None,
        };
        assert forall|p: HookPoint, n: Seq<char>| #[trigger] r.hooks(p, n) == Seq::<Hook>::empty() by {
            assert(Seq::<Hook>::empty() + Seq::<Hook>::empty() =~= Seq::<Hook>::empty());
        }
        r
    }

    /// Finishes the builder: the plugin, or the first duplicate registration.
    pub fn build(self) -> (r: Result<CallbackPluginBuilder, ConfigurationError>)
        ensures
            self.conflict() is None ==> r == Ok::<CallbackPluginBuilder, ConfigurationError>(self),
            self.conflict() matches Some(e) ==> r == Err::<CallbackPluginBuilder, ConfigurationError>(e),
    {
        match self.conflict {
            Some(e) => Err(e),
            None => Ok(self),
        }
    }
}

/// The hook registered for `name`, searched from the most recent entry.
fn get_named(entries: &Vec<(String, Hook)>, name: &str) -> (r: Option<Hook>)
    ensures
        r == lookup(entries@, name@),
{
    let owned = name.to_owned();
    let mut i: usize = entries.len();
    assert(entries@.take(i as int) =~= entries@);
    while i > 0
        invariant
            i <= entries.len(),
            owned@ == name@,
            lookup(entries@, name@) == lookup(entries@.take(i as int), name@),
        decreases i,
    {
        let ghost prefix = entries@.take(i as int);
        assert(prefix.last() == entries@[i - 1]);
        if entries[i - 1].0 == owned {
            return Some(entries[i - 1].1.copy());
        }
        assert(prefix.drop_last() =~= entries@.take(i - 1));
        i = i - 1;
    }
    None
}

proof fn lemma_lookup_none(entries: Seq<(String, Hook)>, name: Seq<char>)
    ensures
        (lookup(entries, name) is None) <==> (forall|i: int|
            0 <= i < entries.len() ==> #[trigger] entries[i].0@ != name),
    decreases entries.len(),
{
    if entries.len() > 0 {
        lemma_lookup_none(entries.drop_last(), name);
        if lookup(entries, name) is None {
            assert forall|i: int| 0 <= i < entries.len() implies #[trigger] entries[i].0@ != name by {
                if i < entries.len() - 1 {
                    assert(entries.drop_last()[i] == entries[i]);
                }
            }
        } else {
            if entries.last().0@ != name {
                let i = choose|i: int| 0 <= i < entries.drop_last().len() && #[trigger] entries.drop_last()[i].0@ == name;
                assert(entries[i] == entries.drop_last()[i]);
            }
        }
    }
}

/// Adds `(name, hook)` to a list of named hooks that has no entry for `name`.
fn insert_named(entries: &mut Vec<(String, Hook)>, name: String, hook: Hook)
    requires
        names_unique(old(entries)@),
        lookup(old(entries)@, name@) is None,
    ensures
        final(entries)@ == old(entries)@.push((name, hook)),
        names_unique(final(entries)@),
        forall|n: Seq<char>| #[trigger] lookup(final(entries)@, n) == if n == name@ {
            Some(hook)
        } else {
            lookup(old(entries)@, n)
        },
{
    proof {
        lemma_lookup_none(old(entries)@, name@);
    }
    entries.push((name, hook));
    assert forall|n: Seq<char>| #[trigger] lookup(entries@, n) == if n == name@ {
        Some(hook)
    } else {
        lookup(old(entries)@, n)
    } by {
        assert(entries@.drop_last() =~= old(entries)@);
    }
    assert forall|i: int, j: int| 0 <= i < j < entries@.len() implies #[trigger] entries@[i].0@
        != #[trigger] entries@[j].0@ by {
        if j == entries@.len() - 1 {
            assert(entries@[i] == old(entries)@[i]);
        } else {
            assert(entries@[i] == old(entries)@[i]);
            assert(entries@[j] == old(entries)@[j]);
        }
    }
}

impl CallbackPluginBuilder {
    /// Both builders hold the same hooks.
    pub open spec fn same_hooks(&self, o: &CallbackPluginBuilder) -> bool {
        &&& forall|q: HookPoint| #[trigger] self.slot(q) == o.slot(q)
        &&& forall|q: HookPoint| #[trigger] self.any_hooks(q) == o.any_hooks(q)
        &&& forall|q: HookPoint, n: Seq<char>| #[trigger] self.named(q, n) == o.named(q, n)
    }

    /// `self` is `o` after registering `hook` at the stage point `p`.
    pub open spec fn slot_registered(&self, o: &CallbackPluginBuilder, p: HookPoint, hook: Hook) -> bool {
        if o.occupied(p, Seq::empty()) {
            self.same_hooks(o) && self.conflict() == o.conflict_after(p, None)
        } else {
            &&& self.conflict() == o.conflict()
            &&& self.slot(p) == Some(hook)
            &&& forall|q: HookPoint| q != p ==> #[trigger] self.slot(q) == o.slot(q)
            &&& forall|q: HookPoint| #[trigger] self.any_hooks(q) == o.any_hooks(q)
            &&& forall|q: HookPoint, n: Seq<char>| #[trigger] self.named(q, n) == o.named(q, n)
        }
    }

    /// `self` is `o` after registering `hook` for backend `name` at the backend
    /// point `p`.
    pub open spec fn named_registered(
        &self,
        o: &CallbackPluginBuilder,
        p: HookPoint,
        name: String,
        hook: Hook,
    ) -> bool {
        if o.occupied(p, name@) {
            self.same_hooks(o) && self.conflict() == o.conflict_after(p, Some(name))
        } else {
            &&& self.conflict() == o.conflict()
            &&& forall|q: HookPoint| #[trigger] self.slot(q) == o.slot(q)
            &&& forall|q: HookPoint| #[trigger] self.any_hooks(q) == o.any_hooks(q)
            &&& self.named(p, name@) == Some(hook)
            &&& forall|q: HookPoint, n: Seq<char>|
                !(q == p && n == name@) ==> #[trigger] self.named(q, n) == o.named(q, n)
        }
    }

    /// `self` is `o` with `hook` appended to the any-backend hooks of `p`.
    pub open spec fn any_registered(&self, o: &CallbackPluginBuilder, p: HookPoint, hook: Hook) -> bool {
        &&& self.conflict() == o.conflict()
        &&& forall|q: HookPoint| #[trigger] self.slot(q) == o.slot(q)
        &&& self.any_hooks(p) == o.any_hooks(p).push(hook)
        &&& forall|q: HookPoint| q != p ==> #[trigger] self.any_hooks(q) == o.any_hooks(q)
        &&& forall|q: HookPoint, n: Seq<char>| #[trigger] self.named(q, n) == o.named(q, n)
    }

    fn with_slot(self, p: HookPoint, hook: Hook) -> (r: CallbackPluginBuilder)
        requires
            self.wf(),
            !is_backend_point(p),
        ensures
            r.wf(),
            r.slot_registered(&self, p, hook),
    {
        let mut r = self;
        let taken = match p {
            HookPoint::BeforeRouter => r.before_router.is_some(),
            HookPoint::AfterRouter => r.after_router.is_some(),
            HookPoint::BeforeQueryPlanning => r.before_query_planning.is_some(),
            HookPoint::AfterQueryPlanning => r.after_query_planning.is_some(),
            HookPoint::BeforeExecution => r.before_execution.is_some(),
            _ => r.after_execution.is_some(),
        };
        if taken {
            if r.conflict.is_none() {
                r.conflict = Some(ConfigurationError::DuplicateHook { point: p, backend: None });
            }
            return r;
        }
        match p {
            HookPoint::BeforeRouter => r.before_router = Some(hook),
            HookPoint::AfterRouter => r.after_router = Some(hook),
            HookPoint::BeforeQueryPlanning => r.before_query_planning = Some(hook),
            HookPoint::AfterQueryPlanning => r.after_query_planning = Some(hook),
            HookPoint::BeforeExecution => r.before_execution = Some(hook),
            _ => r.after_execution = Some(hook),
        }
        r
    }

    fn with_named(self, p: HookPoint, name: String, hook: Hook) -> (r: CallbackPluginBuilder)
        requires
            self.wf(),
            is_backend_point(p),
        ensures
            r.wf(),
            r.named_registered(&self, p, name, hook),
    {
        let mut r = self;
        let found = if p == HookPoint::BeforeSubgraph {
            get_named(&r.before_subgraph, name.as_str())
        } else {
            get_named(&r.after_subgraph, name.as_str())
        };
        if found.is_some() {
            if r.conflict.is_none() {
                r.conflict = Some(ConfigurationError::DuplicateHook { point: p, backend: Some(name) });
            }
            return r;
        }
        if p == HookPoint::BeforeSubgraph {
            insert_named(&mut r.before_subgraph, name, hook);
        } else {
            insert_named(&mut r.after_subgraph, name, hook);
        }
        r
    }
}

impl CallbackPluginBuilder {
    /// Registers the before router hook; a second registration is a
    /// configuration error that `build` reports, and has no effect.
    pub fn with_before_router(self, hook: Hook) -> (r: CallbackPluginBuilder)
        requires
            self.wf(),
        ensures
            r.wf(),
            r.slot_registered(&self, HookPoint::BeforeRouter, hook),
    {
        self.with_slot(HookPoint::BeforeRouter, hook)
    }

    /// Registers the after router hook; a second registration is a
    /// configuration error that `build` reports, and has no effect.
    pub fn with_after_router(self, hook: Hook) -> (r: CallbackPluginBuilder)
        requires
            self.wf(),
        ensures
            r.wf(),
            r.slot_registered(&self, HookPoint::AfterRouter, hook),
    {
        self.with_slot(HookPoint::AfterRouter, hook)
    }

    /// Registers the before query planning hook; a second registration is a
    /// configuration error that `build` reports, and has no effect.
    pub fn with_before_query_planning(self, hook: Hook) -> (r: CallbackPluginBuilder)
        requires
            self.wf(),
        ensures
            r.wf(),
            r.slot_registered(&self, HookPoint::BeforeQueryPlanning, hook),
    {
        self.with_slot(HookPoint::BeforeQueryPlanning, hook)
    }

    /// Registers the after query planning hook; a second registration is a
    /// configuration error that `build` reports, and has no effect.
    pub fn with_after_query_planning(self, hook: Hook) -> (r: CallbackPluginBuilder)
        requires
            self.wf(),
        ensures
            r.wf(),
            r.slot_registered(&self, HookPoint::AfterQueryPlanning, hook),
    {
        self.with_slot(HookPoint::AfterQueryPlanning, hook)
    }

    /// Registers the before execution hook; a second registration is a
    /// configuration error that `build` reports, and has no effect.
    pub fn with_before_execution(self, hook: Hook) -> (r: CallbackPluginBuilder)
        requires
            self.wf(),
        ensures
            r.wf(),
            r.slot_registered(&self, HookPoint::BeforeExecution, hook),
    {
        self.with_slot(HookPoint::BeforeExecution, hook)
    }

    /// Registers the after execution hook; a second registration is a
    /// configuration error that `build` reports, and has no effect.
    pub fn with_after_execution(self, hook: Hook) -> (r: CallbackPluginBuilder)
        requires
            self.wf(),
        ensures
            r.wf(),
            r.slot_registered(&self, HookPoint::AfterExecution, hook),
    {
        self.with_slot(HookPoint::AfterExecution, hook)
    }

    /// Appends a hook that runs on the requests to every backend, before the
    /// backend's named hook.
    pub fn with_before_any_subgraph(self, hook: Hook) -> (r: CallbackPluginBuilder)
        requires
            self.wf(),
        ensures
            r.wf(),
            r.any_registered(&self, HookPoint::BeforeSubgraph, hook),
    {
        let mut r = self;
        r.before_any_subgraph.push(hook);
        r
    }

    /// Appends a hook that runs on the responses of every backend, after the
    /// backend's named hook.
    pub fn with_after_any_subgraph(self, hook: Hook) -> (r: CallbackPluginBuilder)
        requires
            self.wf(),
        ensures
            r.wf(),
            r.any_registered(&self, HookPoint::AfterSubgraph, hook),
    {
        let mut r = self;
        r.after_any_subgraph.push(hook);
        r
    }

    /// Registers the hook that runs on the requests to backend `service_name`;
    /// a second registration for the same name is a configuration error that
    /// `build` reports, and has no effect.
    pub fn with_before_subgraph(self, service_name: String, hook: Hook) -> (r: CallbackPluginBuilder)
        requires
            self.wf(),
        ensures
            r.wf(),
            r.named_registered(&self, HookPoint::BeforeSubgraph, service_name, hook),
    {
        self.with_named(HookPoint::BeforeSubgraph, service_name, hook)
    }

    /// Registers the hook that runs on the responses of backend `service_name`;
    /// a second registration for the same name is a configuration error that
    /// `build` reports, and has no effect.
    pub fn with_after_subgraph(self, service_name: String, hook: Hook) -> (r: CallbackPluginBuilder)
        requires
            self.wf(),
        ensures
            r.wf(),
            r.named_registered(&self, HookPoint::AfterSubgraph, service_name, hook),
    {
        self.with_named(HookPoint::AfterSubgraph, service_name, hook)
    }
}

impl CallbackPlugin for CallbackPluginBuilder {
    /// Stage points run their slot; on a backend's requests the any-backend
    /// hooks run before the named hook, on its responses the named hook runs
    /// before the any-backend hooks.
    open spec fn hooks(&self, point: HookPoint, backend: Seq<char>) -> Seq<Hook> {
        match point {
            HookPoint::BeforeSubgraph => self.any_hooks(point) + hooks_of_opt(
                self.named(point, backend),
            ),
            HookPoint::AfterSubgraph => hooks_of_opt(self.named(point, backend)) + self.any_hooks(
                point,
            ),
            _ => hooks_of_opt(self.slot(point)),
        }
    }

    fn before_router(&self, r: RouterRequest) -> (out: Result<RouterRequest, HookFailure>) {
        apply_opt(&self.before_router, r)
    }

    fn after_router(&self, r: RouterResponse) -> (out: Result<RouterResponse, HookFailure>) {
        apply_opt(&self.after_router, r)
    }

    fn before_query_planning(&self, r: RouterRequest) -> (out: Result<RouterRequest, HookFailure>) {
        apply_opt(&self.before_query_planning, r)
    }

    fn after_query_planning(&self, r: PlannedRequest) -> (out: Result<PlannedRequest, HookFailure>) {
        apply_opt(&self.after_query_planning, r)
    }

    fn before_execution(&self, r: PlannedRequest) -> (out: Result<PlannedRequest, HookFailure>) {
        apply_opt(&self.before_execution, r)
    }

    fn after_execution(&self, r: RouterResponse) -> (out: Result<RouterResponse, HookFailure>) {
        apply_opt(&self.after_execution, r)
    }

    fn before_subgraph(&self, name: &str, r: SubgraphRequest) -> (out: Result<
        SubgraphRequest,
        HookFailure,
    >) {
        let ghost m0 = r;
        let mid = apply_all(&self.before_any_subgraph, r);
        let ghost mid0 = mid;
        let named = get_named(&self.before_subgraph, name);
        let out = match mid {
            Ok(x) => apply_opt(&named, x),
            Err(e) => Err(e),
        };
        proof {
            lemma_ran_concat(self.before_any_subgraph@, hooks_of_opt(named), m0, mid0, out);
        }
        out
    }

    fn after_subgraph(&self, name: &str, r: SubgraphResponse) -> (out: Result<
        SubgraphResponse,
        HookFailure,
    >) {
        let ghost m0 = r;
        let named = get_named(&self.after_subgraph, name);
        let mid = apply_opt(&named, r);
        let ghost mid0 = mid;
        let out = match mid {
            Ok(x) => apply_all(&self.after_any_subgraph, x),
            Err(e) => Err(e),
        };
        proof {
            lemma_ran_concat(hooks_of_opt(named), self.after_any_subgraph@, m0, mid0, out);
        }
        out
    }
}

/// Backend hook order: on a backend's requests the any-backend hooks run in
/// registration order and then the backend's named hook; on its responses the
/// named hook runs first and then the any-backend hooks in registration order.
/// An any-backend hook registered on `b` (giving `c`) runs after those `b` held.
pub proof fn lemma_backend_hook_order(
    b: CallbackPluginBuilder,
    c: CallbackPluginBuilder,
    p: HookPoint,
    a: Hook,
    name: Seq<char>,
)
    requires
        is_backend_point(p),
        c.any_registered(&b, p, a),
    ensures
        c.hooks(HookPoint::BeforeSubgraph, name) == c.any_hooks(HookPoint::BeforeSubgraph)
            + hooks_of_opt(c.named(HookPoint::BeforeSubgraph, name)),
        c.hooks(HookPoint::AfterSubgraph, name) == hooks_of_opt(c.named(HookPoint::AfterSubgraph, name))
            + c.any_hooks(HookPoint::AfterSubgraph),
        c.any_hooks(p) == b.any_hooks(p).push(a),
        c.named(p, name) == b.named(p, name),
{
}

/// A second registration at a stage hook point has no effect on the hooks and
/// leaves a configuration error for `build` to report.
pub proof fn lemma_duplicate_slot(
    b0: CallbackPluginBuilder,
    b1: CallbackPluginBuilder,
    b2: CallbackPluginBuilder,
    p: HookPoint,
    first: Hook,
    second: Hook,
)
    requires
        !is_backend_point(p),
        b1.slot_registered(&b0, p, first),
        b2.slot_registered(&b1, p, second),
    ensures
        b2.same_hooks(&b1),
        forall|q: HookPoint, n: Seq<char>| #[trigger] b2.hooks(q, n) == b1.hooks(q, n),
        b2.conflict() is Some,
        b0.conflict() is None ==> b2.conflict() == Some(
            ConfigurationError::DuplicateHook { point: p, backend: None },
        ),
{
}

/// A second registration of a named backend hook for the same backend name has
/// no effect on the hooks and leaves a configuration error for `build` to
/// report.
pub proof fn lemma_duplicate_named(
    b0: CallbackPluginBuilder,
    b1: CallbackPluginBuilder,
    b2: CallbackPluginBuilder,
    p: HookPoint,
    name: String,
    first: Hook,
    second: Hook,
)
    requires
        is_backend_point(p),
        b1.named_registered(&b0, p, name, first),
        b2.named_registered(&b1, p, name, second),
    ensures
        b2.same_hooks(&b1),
        forall|q: HookPoint, n: Seq<char>| #[trigger] b2.hooks(q, n) == b1.hooks(q, n),
        b2.conflict() is Some,
        b0.conflict() is None ==> b2.conflict() == Some(
            ConfigurationError::DuplicateHook { point: p, backend: Some(name) },
        ),
{
}

/// `build` fails exactly on a duplicate registration. After one registration
/// (giving `b1` from `b0`) the builder holds no conflict iff it held none
/// before and the slot registered at was free; an any-backend registration
/// never conflicts. So after any sequence of registrations on `builder()`,
/// `build` returns an error iff one of them hit an occupied slot.
pub proof fn lemma_conflict_iff_duplicate(
    b0: CallbackPluginBuilder,
    b1: CallbackPluginBuilder,
    p: HookPoint,
    name: String,
    hook: Hook,
)
    ensures
        !is_backend_point(p) && b1.slot_registered(&b0, p, hook) ==> ((b1.conflict() is None) == (
        b0.conflict() is None && !b0.occupied(p, Seq::empty()))),
        is_backend_point(p) && b1.named_registered(&b0, p, name, hook) ==> ((b1.conflict() is None)
            == (b0.conflict() is None && !b0.occupied(p, name@))),
        b1.any_registered(&b0, p, hook) ==> b1.conflict() == b0.conflict(),
{
}

/// One call of a `with_*` setter, as the laws below speak of it.
pub enum Registration {
    /// A stage hook point: `with_before_router` and the like.
    Slot { point: HookPoint, hook: Hook },
    /// An any-backend hook: `with_before_any_subgraph` or `with_after_any_subgraph`.
    Any { point: HookPoint, hook: Hook },
    /// A named backend hook: `with_before_subgraph` or `with_after_subgraph`.
    Named { point: HookPoint, name: String, hook: Hook },
}

/// `b1` is `b0` after the registration `reg`.
pub open spec fn registers(reg: Registration, b0: CallbackPluginBuilder, b1: CallbackPluginBuilder) -> bool {
    match reg {
        Registration::Slot { point, hook } => !is_backend_point(point) && b1.slot_registered(
            &b0,
            point,
            hook,
        ),
        Registration::Any { point, hook } => is_backend_point(point) && b1.any_registered(
            &b0,
            point,
            hook,
        ),
        Registration::Named { point, name, hook } => is_backend_point(point) && b1.named_registered(
            &b0,
            point,
            name,
            hook,
        ),
    }
}

/// The registration `reg` finds its slot on `b` taken.
pub open spec fn is_duplicate(reg: Registration, b: CallbackPluginBuilder) -> bool {
    match reg {
        Registration::Slot { point, .. } => b.occupied(point, Seq::empty()),
        Registration::Any { .. } => false,
        Registration::Named { point, name, .. } => b.occupied(point, name@),
    }
}

/// `build` fails exactly on a duplicate, over a whole sequence of
/// registrations: when `builders[0]` holds no conflict and each builder is
/// the one before after `regs[i]`, the last builder holds no conflict (so
/// `build` returns it) iff no registration found its slot taken.
pub proof fn lemma_build_fails_iff_duplicate(
    builders: Seq<CallbackPluginBuilder>,
    regs: Seq<Registration>,
)
    requires
        builders.len() == regs.len() + 1,
        builders[0].conflict() is None,
        forall|i: int| 0 <= i < regs.len() ==> registers(#[trigger] regs[i], builders[i], builders[i + 1]),
    ensures
        (builders.last().conflict() is None) == (forall|i: int|
            0 <= i < regs.len() ==> !is_duplicate(#[trigger] regs[i], builders[i])),
    decreases regs.len(),
{
    if regs.len() > 0 {
        let n = regs.len() - 1;
        let bs = builders.drop_last();
        let rs = regs.drop_last();
        assert forall|i: int| 0 <= i < rs.len() implies registers(#[trigger] rs[i], bs[i], bs[i + 1]) by {
            assert(rs[i] == regs[i]);
            assert(bs[i] == builders[i]);
            assert(bs[i + 1] == builders[i + 1]);
            assert(registers(regs[i], builders[i], builders[i + 1]));
        }
        lemma_build_fails_iff_duplicate(bs, rs);
        assert(bs.last() == builders[n]);
        assert(registers(regs[n], builders[n], builders[n + 1]));
        assert(builders.last() == builders[n + 1]);
        match regs[n] {
            Registration::Slot { point, hook } => {
                lemma_conflict_iff_duplicate(builders[n], builders[n + 1], point, arbitrary(), hook);
            },
            Registration::Any { point, hook } => {
                lemma_conflict_iff_duplicate(builders[n], builders[n + 1], point, arbitrary(), hook);
            },
            Registration::Named { point, name, hook } => {
                lemma_conflict_iff_duplicate(builders[n], builders[n + 1], point, name, hook);
            },
        }
        if forall|i: int| 0 <= i < regs.len() ==> !is_duplicate(#[trigger] regs[i], builders[i]) {
            assert forall|i: int| 0 <= i < rs.len() implies !is_duplicate(#[trigger] rs[i], bs[i]) by {
                assert(rs[i] == regs[i]);
                assert(bs[i] == builders[i]);
                assert(!is_duplicate(regs[i], builders[i]));
            }
            assert(!is_duplicate(regs[n], builders[n]));
        }
        if builders.last().conflict() is None {
            assert forall|i: int| 0 <= i < regs.len() implies !is_duplicate(#[trigger] regs[i], builders[i]) by {
                if i < n {
                    assert(rs[i] == regs[i]);
                    assert(bs[i] == builders[i]);
                    assert(!is_duplicate(rs[i], bs[i]));
                }
            }
        }
    }
}

} // verus!
