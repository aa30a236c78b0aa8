//! Message envelopes that flow through the pipeline stages, and the hooks that
//! plugins attach to them.
use vstd::prelude::*;

verus! {

/// A value travelling through a stage, with its request-scoped headers and
/// the trail of hooks that have observed it so far (oldest first). A header
/// set later overrides one set earlier under the same name.
pub struct Envelope<T> {
    pub body: T,
    pub headers: Vec<(String, String)>,
    pub trail: Vec<u64>,
}

/// The headers as pairs of character sequences.
pub open spec fn header_view(headers: Seq<(String, String)>) -> Seq<(Seq<char>, Seq<char>)> {
    headers.map_values(|p: (String, String)| (p.0@, p.1@))
}

/// The value of header `name`: the one set last, if any.
pub open spec fn header_value(headers: Seq<(Seq<char>, Seq<char>)>, name: Seq<char>) -> Option<
    Seq<char>,
>
    decreases headers.len(),
{
    if headers.len() == 0 {
        None
    } else if headers.last().0 == name {
        Some(headers.last().1)
    } else {
        header_value(headers.drop_last(), name)
    }
}

impl<T> Envelope<T> {
    /// A fresh envelope without headers that no hook has seen yet.
    pub fn new(body: T) -> (r: Envelope<T>)
        ensures
            r.body == body,
            r.headers@ == Seq::<(String, String)>::empty(),
            r.trail@ == Seq::<u64>::empty(),
    {
        Envelope { body, headers: Vec::new(), trail: Vec::new() }
    }

    /// The value of header `name`: the one set last, if any.
    pub fn header(&self, name: &str) -> (r: Option<String>)
        ensures
            r matches Some(v) ==> header_value(header_view(self.headers@), name@) == Some(v@),
            r is None ==> header_value(header_view(self.headers@), name@) is None,
    {
        let owned = name.to_owned();
        let ghost hv = header_view(self.headers@);
        let mut i: usize = self.headers.len();
        assert(hv.take(i as int) =~= hv);
        while i > 0
            invariant
                i <= self.headers@.len(),
                owned@ == name@,
                hv == header_view(self.headers@),
                header_value(hv, name@) == header_value(hv.take(i as int), name@),
            decreases i,
        {
            let ghost prefix = hv.take(i as int);
            assert(prefix.last() == hv[i - 1]);
            if self.headers[i - 1].0 == owned {
                return Some(self.headers[i - 1].1.clone());
            }
            assert(prefix.drop_last() =~= hv.take(i - 1));
            i = i - 1;
        }
        None
    }
}

/// What a hook does to the value it is given.
#[derive(Clone, PartialEq, Eq, Debug)]
pub enum HookAction {
    /// Hands the value on unchanged.
    Pass,
    /// Fails: the value goes no further.
    Reject,
    /// Hands the value on with header `name` set to `value`.
    SetHeader { name: String, value: String },
}

/// A request/response transform registered at a hook point, named by its tag.
/// Unless it rejects, it applies its action and records its tag on the trail;
/// a rejecting hook fails, and the failure names it.
#[derive(Clone, PartialEq, Eq, Debug)]
pub struct Hook {
    pub tag: u64,
    pub action: HookAction,
}

/// A hook failed: the stage it guards is not run and the failure propagates.
#[derive(Clone, Copy, PartialEq, Eq, Debug, Structural)]
pub struct HookFailure {
    pub tag: u64,
}

/// No hook of the list rejects.
pub open spec fn all_pass(hooks: Seq<Hook>) -> bool {
    forall|i: int| 0 <= i < hooks.len() ==> !((#[trigger] hooks[i]).action is Reject)
}

/// The headers that a list of hooks sets, in order.
pub open spec fn headers_set(hooks: Seq<Hook>) -> Seq<(Seq<char>, Seq<char>)>
    decreases hooks.len(),
{
    if hooks.len() == 0 {
        Seq::empty()
    } else {
        let prev = headers_set(hooks.drop_last());
        match hooks.last().action {
            HookAction::SetHeader { name, value } => prev.push((name@, value@)),
            _ => prev,
        }
    }
}

/// The tag of the first rejecting hook of the list (meaningful when one rejects).
pub open spec fn first_rejecting(hooks: Seq<Hook>) -> u64
    decreases hooks.len(),
{
    if hooks.len() == 0 {
        0
    } else if !all_pass(hooks.drop_last()) {
        first_rejecting(hooks.drop_last())
    } else {
        hooks.last().tag
    }
}

/// The tags of a list of hooks, in list order.
pub open spec fn tags_of(hooks: Seq<Hook>) -> Seq<u64>
    decreases hooks.len(),
{
    if hooks.len() == 0 {
        Seq::empty()
    } else {
        tags_of(hooks.drop_last()).push(hooks.last().tag)
    }
}

/// An optional hook as a list of zero or one hooks.
pub open spec fn hooks_of_opt(h: Option<Hook>) -> Seq<Hook> {
    match h {
        Some(h) => seq![h],
        None => Seq::empty(),
    }
}

/// `r` is what running `hooks` in order on `m` gives: when none rejects, `m`'s
/// body with every header the hooks set added after `m`'s headers and every
/// tag recorded; otherwise the failure of the first rejecting hook.
pub open spec fn ran<T>(hooks: Seq<Hook>, m: Envelope<T>, r: Result<Envelope<T>, HookFailure>) -> bool {
    if all_pass(hooks) {
        r matches Ok(o) && o.body == m.body && header_view(o.headers@) == header_view(m.headers@)
            + headers_set(hooks) && o.trail@ == m.trail@ + tags_of(hooks)
    } else {
        r == Err::<Envelope<T>, HookFailure>(HookFailure { tag: first_rejecting(hooks) })
    }
}

proof fn lemma_concat_seqs(a: Seq<Hook>, b: Seq<Hook>)
    ensures
        all_pass(a + b) == (all_pass(a) && all_pass(b)),
        tags_of(a + b) == tags_of(a) + tags_of(b),
        headers_set(a + b) == headers_set(a) + headers_set(b),
        !all_pass(a + b) ==> first_rejecting(a + b) == if !all_pass(a) {
            first_rejecting(a)
        } else {
            first_rejecting(b)
        },
    decreases b.len(),
{
    if !all_pass(a) {
        let i = choose|i: int| 0 <= i < a.len() && (#[trigger] a[i]).action is Reject;
        assert((a + b)[i] == a[i]);
    }
    if !all_pass(b) {
        let i = choose|i: int| 0 <= i < b.len() && (#[trigger] b[i]).action is Reject;
        assert((a + b)[a.len() + i] == b[i]);
    }
    if !all_pass(a + b) {
        let i = choose|i: int| 0 <= i < (a + b).len() && (#[trigger] (a + b)[i]).action is Reject;
        if i < a.len() {
            assert((a + b)[i] == a[i]);
        } else {
            assert((a + b)[i] == b[i - a.len()]);
        }
    }
    if b.len() == 0 {
        assert(a + b =~= a);
        assert(tags_of(a) + tags_of(b) =~= tags_of(a));
        assert(headers_set(a) + headers_set(b) =~= headers_set(a));
    } else {
        let b1 = b.drop_last();
        lemma_concat_seqs(a, b1);
        assert((a + b).drop_last() =~= a + b1);
        assert((a + b).last() == b.last());
        assert(tags_of(a + b) =~= tags_of(a) + tags_of(b));
        assert(headers_set(a + b) =~= headers_set(a) + headers_set(b));
        if all_pass(a + b1) {
            assert forall|i: int| 0 <= i < b1.len() implies !((#[trigger] b1[i]).action is Reject) by {
                assert((a + b1)[a.len() + i] == b1[i]);
            }
        }
    }
}

/// Running `a` and then, when it passed, `b`, is running `a + b`.
pub proof fn lemma_ran_concat<T>(
    a: Seq<Hook>,
    b: Seq<Hook>,
    m: Envelope<T>,
    mid: Result<Envelope<T>, HookFailure>,
    r: Result<Envelope<T>, HookFailure>,
)
    requires
        ran(a, m, mid),
        mid matches Ok(x) ==> ran(b, x, r),
        mid is Err ==> r == mid,
    ensures
        ran(a + b, m, r),
{
    lemma_concat_seqs(a, b);
    if let Ok(x) = mid {
        if all_pass(b) {
            assert(r->Ok_0.trail@ =~= m.trail@ + tags_of(a + b));
            assert(header_view(r->Ok_0.headers@) =~= header_view(m.headers@) + headers_set(a + b));
        }
    }
}

/// Running no hooks passes the value on unchanged.
pub proof fn lemma_ran_empty<T>(m: Envelope<T>)
    ensures
        ran(Seq::<Hook>::empty(), m, Ok::<Envelope<T>, HookFailure>(m)),
{
    assert(m.trail@ + tags_of(Seq::<Hook>::empty()) =~= m.trail@);
    assert(header_view(m.headers@) + headers_set(Seq::<Hook>::empty()) =~= header_view(m.headers@));
}

impl Hook {
    /// A hook that hands the value on unchanged, recording `tag`.
    pub fn new(tag: u64) -> (r: Hook)
        ensures
            r == (Hook { tag, action: HookAction::Pass }),
    {
        Hook { tag, action: HookAction::Pass }
    }

    /// A hook that rejects every value it is given.
    pub fn rejecting(tag: u64) -> (r: Hook)
        ensures
            r == (Hook { tag, action: HookAction::Reject }),
    {
        Hook { tag, action: HookAction::Reject }
    }

    /// A hook that sets header `name` to `value`, recording `tag`.
    pub fn set_header(tag: u64, name: String, value: String) -> (r: Hook)
        ensures
            r == (Hook { tag, action: HookAction::SetHeader { name, value } }),
    {
        Hook { tag, action: HookAction::SetHeader { name, value } }
    }

    /// A copy of the hook.
    pub fn copy(&self) -> (r: Hook)
        ensures
            r == *self,
    {
        let action = match &self.action {
            HookAction::Pass => HookAction::Pass,
            HookAction::Reject => HookAction::Reject,
            HookAction::SetHeader { name, value } => HookAction::SetHeader {
                name: name.clone(),
                value: value.clone(),
            },
        };
        Hook { tag: self.tag, action }
    }

    /// Runs the hook on an envelope.
    pub fn apply<T>(&self, m: Envelope<T>) -> (r: Result<Envelope<T>, HookFailure>)
        ensures
            ran(seq![*self], m, r),
    {
        let ghost one = seq![*self];
        assert(one.drop_last() =~= Seq::<Hook>::empty());
        assert(one[0] == *self);
        assert(one.last() == *self);
        assert(headers_set(Seq::<Hook>::empty()) =~= Seq::<(Seq<char>, Seq<char>)>::empty());
        assert(all_pass(one) == !(self.action is Reject));
        assert(tags_of(one) == tags_of(Seq::<Hook>::empty()).push(self.tag));
        let Envelope { body, mut headers, mut trail } = m;
        match &self.action {
            HookAction::Reject => {
                return Err(HookFailure { tag: self.tag });
            },
            HookAction::Pass => {
                assert(headers_set(one) == headers_set(Seq::<Hook>::empty()));
                assert(header_view(headers@) + headers_set(one) =~= header_view(headers@));
            },
            HookAction::SetHeader { name, value } => {
                let ghost before = headers@;
                assert(headers_set(one) == headers_set(Seq::<Hook>::empty()).push((name@, value@)));
                headers.push((name.clone(), value.clone()));
                assert(header_view(headers@) =~= header_view(before) + headers_set(one));
            },
        }
        trail.push(self.tag);
        let r = Envelope { body, headers, trail };
        assert(r.trail@ =~= m.trail@ + tags_of(seq![*self]));
        Ok(r)
    }
}

/// Runs the hooks of `hooks` one after the other, first to last, stopping at
/// the first that rejects.
pub fn apply_all<T>(hooks: &Vec<Hook>, m: Envelope<T>) -> (r: Result<Envelope<T>, HookFailure>)
    ensures
        ran(hooks@, m, r),
{
    let ghost m0 = m;
    proof {
        lemma_ran_empty(m);
        assert(hooks@.take(0) =~= Seq::<Hook>::empty());
    }
    let mut cur: Result<Envelope<T>, HookFailure> = Ok(m);
    let mut i: usize = 0;
    while i < hooks.len()
        invariant
            i <= hooks.len(),
            ran(hooks@.take(i as int), m0, cur),
        decreases hooks.len() - i,
    {
        let ghost prev = cur;
        cur = match cur {
            Ok(x) => hooks[i].apply(x),
            Err(e) => Err(e),
        };
        proof {
            lemma_ran_concat(hooks@.take(i as int), seq![hooks@[i as int]], m0, prev, cur);
            assert(hooks@.take(i as int) + seq![hooks@[i as int]] =~= hooks@.take(i + 1));
        }
        i = i + 1;
    }
    assert(hooks@.take(i as int) =~= hooks@);
    cur
}

/// Runs an optional hook; an empty slot passes the value on unchanged.
pub fn apply_opt<T>(h: &Option<Hook>, m: Envelope<T>) -> (r: Result<Envelope<T>, HookFailure>)
    ensures
        ran(hooks_of_opt(*h), m, r),
{
    match h {
        Some(h) => h.apply(m),
        None => {
            proof {
                lemma_ran_empty(m);
            }
            Ok(m)
        },
    }
}

} // verus!

verus! {

/// The incoming query as it enters the pipeline.
pub type RouterRequest = Envelope<String>;

/// The request once planned.
pub type PlannedRequest = Envelope<crate::fanout::Plan>;

/// One backend call on its way to the backend.
pub type SubgraphRequest = Envelope<crate::fanout::BackendCall>;

/// What one backend call came back with.
pub type SubgraphResponse = Envelope<crate::fanout::Outcome>;

/// The merged response of the whole request.
pub type RouterResponse = Envelope<crate::fanout::AggregateResponse>;

} // verus!
