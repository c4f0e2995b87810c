//! What a thread records when scopes are nested in one another.
//!
//! A program's scopes form a tree. Running them opens and closes spans on
//! the enter stack of the thread; the spans that this records mirror the
//! tree: the parent of each span is the span of the scope that encloses it.

use crate::local::TraceLocalView;
use crate::span::span_id;
use crate::span::ticks_between;
use crate::span::Span;
use crate::span::State;
use vstd::prelude::*;

verus! {

/// A scope as a program writes it: the tag it opens its span with, the
/// ticks at which it is entered and left, and the scopes inside it in the
/// order in which they run.
pub struct Scope {
    pub event: u32,
    pub begin: u64,
    pub end: u64,
    pub inner: Seq<Scope>,
}

/// How many spans a scope records: one for itself and those of the scopes
/// inside it.
pub open spec fn span_count(scope: Scope) -> nat
    decreases scope, 0nat,
{
    1 + span_count_first(scope.inner, scope.inner.len())
}

/// How many spans the first `n` of `scopes` record.
pub open spec fn span_count_first(scopes: Seq<Scope>, n: nat) -> nat
    decreases scopes, n,
{
    if n == 0 || n > scopes.len() {
        0
    } else {
        span_count_first(scopes, (n - 1) as nat) + span_count(scopes[n - 1])
    }
}

/// The context after `scope` ran inside the innermost open span: a span was
/// opened under that span, the inner scopes ran, and the span was closed.
pub open spec fn run(tl: TraceLocalView, scope: Scope) -> TraceLocalView
    decreases scope, 0nat,
{
    let span = Span::opened(tl.next_id(), State::Normal, tl.enter_stack.last(), scope.begin, scope.event);
    run_first(tl.issue(1).enter(span.id), scope.inner, scope.inner.len()).exit(span, scope.end)
}

/// The context after the first `n` of `scopes` ran one after the other.
pub open spec fn run_first(tl: TraceLocalView, scopes: Seq<Scope>, n: nat) -> TraceLocalView
    decreases scopes, n,
{
    if n == 0 || n > scopes.len() {
        tl
    } else {
        run(run_first(tl, scopes, (n - 1) as nat), scopes[n - 1])
    }
}

/// The spans of the tree of `scope`, in the order in which its scopes are
/// left, where `scope` lies directly inside the span `parent` and is the
/// first to take an identity after `issued` others of the context with
/// prefix `id_prefix`. The span of every scope names the span of the scope
/// around it as its parent.
pub open spec fn nested_spans(scope: Scope, parent: u64, id_prefix: u32, issued: nat) -> Seq<Span>
    decreases scope, 0nat,
{
    let id = span_id(id_prefix, issued as u32);
    nested_spans_first(scope.inner, scope.inner.len(), id, id_prefix, issued + 1).push(
        Span {
            id,
            state: State::Normal,
            parent_id: parent,
            begin_ticks: scope.begin,
            elapsed_ticks: ticks_between(scope.begin, scope.end),
            event: scope.event,
        },
    )
}

/// The spans of the trees of the first `n` of `scopes`, which all lie
/// directly inside the span `parent`.
pub open spec fn nested_spans_first(
    scopes: Seq<Scope>,
    n: nat,
    parent: u64,
    id_prefix: u32,
    issued: nat,
) -> Seq<Span>
    decreases scopes, n,
{
    if n == 0 || n > scopes.len() {
        Seq::empty()
    } else {
        nested_spans_first(scopes, (n - 1) as nat, parent, id_prefix, issued) + nested_spans(
            scopes[n - 1],
            parent,
            id_prefix,
            issued + span_count_first(scopes, (n - 1) as nat),
        )
    }
}

/// Whether running scopes took the context from `pre` to `post` by
/// numbering `count` spans and recording `recorded`, with the enter stack
/// as it was before.
pub open spec fn ran(pre: TraceLocalView, post: TraceLocalView, count: nat, recorded: Seq<Span>) -> bool {
    &&& post.id_prefix == pre.id_prefix
    &&& post.issued == pre.issued + count
    &&& post.flushed == pre.flushed
    &&& post.enter_stack == pre.enter_stack
    &&& post.spans == pre.spans + recorded
    &&& post.properties == pre.properties
    &&& post.collector == pre.collector
    &&& post.wf()
}

/// Stack discipline. A scope that runs inside an open span, with whatever
/// scopes nested in it, leaves the enter stack as it found it and records
/// the spans of its tree, each with the span of the enclosing scope as its
/// parent.
pub proof fn law_nesting_is_recorded(tl: TraceLocalView, scope: Scope)
    requires
        tl.wf(),
        tl.is_active(),
        tl.can_issue(span_count(scope)),
    ensures
        ran(
            tl,
            run(tl, scope),
            span_count(scope),
            nested_spans(scope, tl.enter_stack.last(), tl.id_prefix, tl.issued as nat),
        ),
    decreases scope, 0nat,
{
    let span = Span::opened(tl.next_id(), State::Normal, tl.enter_stack.last(), scope.begin, scope.event);
    let entered = tl.issue(1).enter(span.id);
    assert(entered.wf());
    law_nesting_is_recorded_first(entered, scope.inner, scope.inner.len());
    let inside = run_first(entered, scope.inner, scope.inner.len());
    assert(inside.exit(span, scope.end).wf());
    assert(inside.exit(span, scope.end).enter_stack =~= tl.enter_stack);
    assert(inside.exit(span, scope.end).spans =~= tl.spans + nested_spans(
        scope,
        tl.enter_stack.last(),
        tl.id_prefix,
        tl.issued as nat,
    ));
}

/// Stack discipline for scopes that run one after the other inside one
/// open span: they are recorded as siblings under that span.
pub proof fn law_nesting_is_recorded_first(tl: TraceLocalView, scopes: Seq<Scope>, n: nat)
    requires
        tl.wf(),
        tl.is_active(),
        n <= scopes.len(),
        tl.can_issue(span_count_first(scopes, n)),
    ensures
        ran(
            tl,
            run_first(tl, scopes, n),
            span_count_first(scopes, n),
            nested_spans_first(scopes, n, tl.enter_stack.last(), tl.id_prefix, tl.issued as nat),
        ),
    decreases scopes, n,
{
    if n > 0 {
        law_nesting_is_recorded_first(tl, scopes, (n - 1) as nat);
        let before = run_first(tl, scopes, (n - 1) as nat);
        law_nesting_is_recorded(before, scopes[n - 1]);
        assert(run_first(tl, scopes, n).spans =~= tl.spans + nested_spans_first(
            scopes,
            n,
            tl.enter_stack.last(),
            tl.id_prefix,
            tl.issued as nat,
        ));
    } else {
        assert(tl.spans =~= tl.spans + Seq::<Span>::empty());
    }
}

} // verus!
