//! Scope guards and the operations that open spans on a recording context.

use crate::channel;
use crate::clock;
use crate::collector::Collector;
use crate::local::CollectorLink;
use crate::local::TraceLocal;
use crate::local::TraceLocalView;
use crate::span::elapsed_ticks;
use crate::span::Span;
use crate::span::SpanSet;
use crate::span::SpanSetView;
use crate::span::State;
use crate::span::NO_PARENT;
use std::sync::Arc;
use vstd::prelude::*;
use vstd::slice::slice_to_vec;
use vstd::std_specs::convert::IntoSpec;

verus! {

/// An open span, as every kind of guard holds it.
pub struct SpanGuardInner {
    pub(crate) span: Span,
}

impl View for SpanGuardInner {
    type V = Span;

    open(crate) spec fn view(&self) -> Span {
        self.span
    }
}

impl SpanGuardInner {
    /// Opens `span`: its identity becomes the innermost entry of the enter
    /// stack.
    pub fn enter(span: Span, tl: &mut TraceLocal) -> (guard: SpanGuardInner)
        requires
            old(tl)@.numbering_wf(),
            old(tl)@.is_unused(span.id),
        ensures
            guard@ == span,
            final(tl)@ == old(tl)@.enter(span.id),
            final(tl)@.numbering_wf(),
    {
        tl.enter_stack.push(span.id);
        SpanGuardInner { span }
    }

    /// Closes the span at tick `now`: pops the enter stack and appends the
    /// span, with the ticks that elapsed on it, to the buffer.
    pub fn exit_at(self, tl: &mut TraceLocal, now: u64)
        requires
            old(tl)@.numbering_wf(),
            old(tl)@.is_active(),
            old(tl)@.enter_stack.last() == self@.id,
        ensures
            final(tl)@ == old(tl)@.exit(self@, now),
            final(tl)@.numbering_wf(),
    {
        let mut span = self.span;
        tl.enter_stack.pop();
        span.elapsed_ticks = elapsed_ticks(span.begin_ticks, now);
        tl.span_set.spans.push(span);
    }

    /// The span that the guard keeps open.
    pub fn span(&self) -> (span: Span)
        ensures
            span == self@,
    {
        self.span
    }
}

/// A batch on its way to the collector of its trace. Only a release of a
/// guard makes one, so that it is always addressed to a channel that
/// [`start_trace_at`] opened: one that takes any number of batches.
pub struct Outbound {
    pub(crate) batch: SpanSet,
    pub(crate) collector: CollectorLink,
}

impl View for Outbound {
    type V = SpanSetView;

    open(crate) spec fn view(&self) -> SpanSetView {
        self.batch@
    }
}

impl Outbound {
    /// The collector that the batch is addressed to.
    pub open(crate) spec fn collector(&self) -> CollectorLink {
        self.collector
    }

    pub(crate) fn new(batch: SpanSet, collector: CollectorLink) -> (out: Outbound)
        ensures
            out@ == batch@,
            out.collector() == collector,
    {
        Outbound { batch, collector }
    }

    /// The batch that is to be sent.
    pub fn batch(&self) -> (batch: &SpanSet)
        ensures
            batch@ == self@,
    {
        &self.batch
    }

    /// Sends the batch. `false` when the trace was finished before: the
    /// batch is then dropped, and that is no error.
    pub fn send(self) -> (delivered: bool) {
        channel::send(&self.collector, self.batch)
    }
}

/// Keeps a span open that lies inside another open span of its thread.
pub struct SpanGuard {
    pub(crate) inner: SpanGuardInner,
}

impl View for SpanGuard {
    type V = Span;

    open(crate) spec fn view(&self) -> Span {
        self.inner@
    }
}

impl SpanGuard {
    /// Whether the guard's span is the innermost open span of `tl` and not
    /// the outermost: the state in which the guard may be released.
    pub open spec fn is_innermost(self, tl: TraceLocalView) -> bool {
        &&& tl.enter_stack.len() >= 2
        &&& tl.enter_stack.last() == self@.id
    }

    /// Computes [`Self::is_innermost`].
    pub fn can_exit(&self, tl: &TraceLocal) -> (able: bool)
        ensures
            able == self.is_innermost(tl@),
    {
        tl.depth() >= 2 && tl.current_span_id() == Some(self.inner.span.id)
    }

    /// The span that the guard keeps open.
    pub fn span(&self) -> (span: Span)
        ensures
            span == self@,
    {
        self.inner.span
    }

    /// Releases the guard at tick `now`: the span is closed and recorded.
    pub fn exit_at(self, tl: &mut TraceLocal, now: u64)
        requires
            old(tl)@.wf(),
            self.is_innermost(old(tl)@),
        ensures
            final(tl)@ == old(tl)@.exit(self@, now),
            final(tl)@.wf(),
    {
        self.inner.exit_at(tl, now);
    }

    /// Releases the guard now and returns the tick of the release.
    pub fn exit(self, tl: &mut TraceLocal) -> (now: u64)
        requires
            old(tl)@.wf(),
            self.is_innermost(old(tl)@),
        ensures
            final(tl)@ == old(tl)@.exit(self@, now),
            final(tl)@.wf(),
    {
        let now = clock::now();
        self.exit_at(tl, now);
        now
    }
}

/// Keeps the outermost span of a thread's part in a trace open. Its release
/// ends that part: the buffer goes to the collector.
pub struct ScopeGuard {
    pub(crate) inner: SpanGuardInner,
}

impl View for ScopeGuard {
    type V = Span;

    open(crate) spec fn view(&self) -> Span {
        self.inner@
    }
}

impl ScopeGuard {
    /// Whether the guard's span is the only open span of `tl`: the state in
    /// which the guard may be released.
    pub open spec fn is_last_open(self, tl: TraceLocalView) -> bool {
        &&& tl.enter_stack.len() == 1
        &&& tl.enter_stack.last() == self@.id
    }

    /// Computes [`Self::is_last_open`].
    pub fn can_exit(&self, tl: &TraceLocal) -> (able: bool)
        ensures
            able == self.is_last_open(tl@),
    {
        tl.depth() == 1 && tl.current_span_id() == Some(self.inner.span.id)
    }

    /// The span that the guard keeps open.
    pub fn span(&self) -> (span: Span)
        ensures
            span == self@,
    {
        self.inner.span
    }

    /// Releases the guard at tick `now`. The span is closed, the buffer is
    /// drained and the thread leaves the trace; what the buffer held comes
    /// back, addressed to the collector of the trace.
    pub fn exit_at(self, tl: &mut TraceLocal, now: u64) -> (out: Outbound)
        requires
            old(tl)@.wf(),
            self.is_last_open(old(tl)@),
        ensures
            out@ == old(tl)@.exit(self@, now).batch(),
            Some(out.collector()) == old(tl)@.collector,
            final(tl)@ == old(tl)@.exit(self@, now).drained().leave(),
            final(tl)@.wf(),
            !final(tl)@.is_active(),
    {
        self.inner.exit_at(tl, now);
        flush(tl)
    }

    /// Releases the guard now, sends the batch and returns the tick of the
    /// release.
    pub fn exit(self, tl: &mut TraceLocal) -> (now: u64)
        requires
            old(tl)@.wf(),
            self.is_last_open(old(tl)@),
        ensures
            final(tl)@ == old(tl)@.exit(self@, now).drained().leave(),
            final(tl)@.wf(),
            !final(tl)@.is_active(),
    {
        let now = clock::now();
        let out = self.exit_at(tl, now);
        out.send();
        now
    }
}

/// Drains the buffer of a context whose last open span was closed, and
/// detaches the context from its collector.
pub(crate) fn flush(tl: &mut TraceLocal) -> (out: Outbound)
    requires
        old(tl)@.numbering_wf(),
        old(tl)@.collector is Some,
        !old(tl)@.is_active(),
    ensures
        out@ == old(tl)@.batch(),
        Some(out.collector()) == old(tl)@.collector,
        final(tl)@ == old(tl)@.drained().leave(),
        final(tl)@.wf(),
{
    let batch = tl.take();
    let collector = tl.cur_collector.take().unwrap();
    tl.flushed = Ghost(tl.issued);
    Outbound::new(batch, collector)
}

/// What [`start_trace_at`] does to a context `pre` at tick `now`, for the
/// caller's tag `event`.
pub open spec fn start_trace_post(
    pre: TraceLocalView,
    event: u32,
    now: u64,
    post: TraceLocalView,
    started: Option<(ScopeGuard, Collector)>,
) -> bool {
    if !pre.is_active() && pre.can_issue(1) {
        &&& started is Some
        &&& started.unwrap().0@ == Span::opened(pre.next_id(), State::Normal, NO_PARENT, now, event)
        &&& post.collector is Some
        &&& post == pre.issue(1).enter(pre.next_id()).join(post.collector.unwrap())
    } else {
        &&& started is None
        &&& post == pre
    }
}

/// Starts a trace on an idle thread at tick `now`: opens the root span and
/// creates the collector, which anchors the root's first tick to the wall
/// clock reading `unix_nanos`.
///
/// Returns `None`, and changes nothing, when the thread is inside a trace
/// already or has no identity left for the root.
pub fn start_trace_at(tl: &mut TraceLocal, event: u32, now: u64, unix_nanos: u64) -> (started:
    Option<(ScopeGuard, Collector)>)
    requires
        old(tl)@.wf(),
    ensures
        start_trace_post(old(tl)@, event, now, final(tl)@, started),
        started matches Some(pair) ==> pair.1.anchor() == unix_nanos,
        final(tl)@.wf(),
{
    if tl.is_active() || !tl.can_issue(1) {
        return None;
    }
    let (sender, receiver) = channel::unbounded();
    let id = tl.new_span_id().unwrap();
    let span = Span {
        id,
        state: State::Normal,
        parent_id: NO_PARENT,
        begin_ticks: now,
        elapsed_ticks: 0,
        event,
    };
    let inner = SpanGuardInner::enter(span, tl);
    tl.cur_collector = Some(Arc::new(sender));
    Some((ScopeGuard { inner }, Collector::new(receiver, unix_nanos)))
}

/// Starts a trace on an idle thread now: reads the tick counter for the
/// root's first tick. The wall clock is the caller's to read: `unix_nanos`
/// is its reading at the call, in nanoseconds since the Unix epoch. See
/// [`start_trace_at`].
pub fn start_trace<T: Into<u32>>(tl: &mut TraceLocal, event: T, unix_nanos: u64) -> (started: Option<
    (ScopeGuard, Collector),
>)
    requires
        old(tl)@.wf(),
    ensures
        exists|code: u32, now: u64|
            {
                &&& T::obeys_into_spec() ==> code == event.into_spec()
                &&& #[trigger] start_trace_post(old(tl)@, code, now, final(tl)@, started)
            },
        started matches Some(pair) ==> pair.1.anchor() == unix_nanos,
        final(tl)@.wf(),
{
    if tl.is_active() || !tl.can_issue(1) {
        assert(start_trace_post(tl@, event.into_spec(), 0, tl@, None));
        return None;
    }
    let code: u32 = event.into();
    let now = clock::now();
    start_trace_at(tl, code, now, unix_nanos)
}

/// What [`new_span_at`] does to a context `pre` at tick `now`, for the
/// caller's tag `event`.
pub open spec fn new_span_post(
    pre: TraceLocalView,
    event: u32,
    now: u64,
    post: TraceLocalView,
    guard: Option<SpanGuard>,
) -> bool {
    if pre.is_active() && pre.can_issue(1) {
        &&& guard is Some
        &&& guard.unwrap()@ == Span::opened(
            pre.next_id(),
            State::Normal,
            pre.enter_stack.last(),
            now,
            event,
        )
        &&& post == pre.issue(1).enter(pre.next_id())
    } else {
        &&& guard is None
        &&& post == pre
    }
}

/// Opens a span at tick `now` inside the innermost open span of the thread,
/// which becomes its parent.
///
/// Returns `None`, and changes nothing, when the thread is inside no trace
/// or has no identity left.
pub fn new_span_at(tl: &mut TraceLocal, event: u32, now: u64) -> (guard: Option<SpanGuard>)
    requires
        old(tl)@.wf(),
    ensures
        new_span_post(old(tl)@, event, now, final(tl)@, guard),
        final(tl)@.wf(),
{
    let parent_id = match tl.current_span_id() {
        Some(top) => top,
        None => {
            return None;
        },
    };
    let id = match tl.new_span_id() {
        Some(id) => id,
        None => {
            return None;
        },
    };
    let span = Span { id, state: State::Normal, parent_id, begin_ticks: now, elapsed_ticks: 0, event };
    let inner = SpanGuardInner::enter(span, tl);
    Some(SpanGuard { inner })
}

/// Opens a span now inside the innermost open span of the thread. See
/// [`new_span_at`].
pub fn new_span<T: Into<u32>>(tl: &mut TraceLocal, event: T) -> (guard: Option<SpanGuard>)
    requires
        old(tl)@.wf(),
    ensures
        !old(tl)@.is_active() ==> guard is None && final(tl)@ == old(tl)@,
        exists|code: u32, now: u64|
            {
                &&& T::obeys_into_spec() ==> code == event.into_spec()
                &&& #[trigger] new_span_post(old(tl)@, code, now, final(tl)@, guard)
            },
        final(tl)@.wf(),
{
    if !tl.is_active() {
        assert(new_span_post(tl@, event.into_spec(), 0, tl@, None));
        return None;
    }
    let code: u32 = event.into();
    let now = clock::now();
    new_span_at(tl, code, now)
}

/// Attaches a property to the trace that the thread is inside of; does
/// nothing outside a trace.
pub fn new_property(tl: &mut TraceLocal, bytes: &[u8])
    requires
        old(tl)@.wf(),
    ensures
        final(tl)@ == if old(tl)@.is_active() {
            old(tl)@.attach(bytes@)
        } else {
            old(tl)@
        },
        final(tl)@.wf(),
{
    if tl.is_active() {
        tl.span_set.properties.push(slice_to_vec(bytes));
    }
}

} // verus!
