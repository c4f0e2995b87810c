//! Carrying a trace to another thread, or past a suspension.
//!
//! An [`AsyncHandle`] is a snapshot of where a trace stood when the handle
//! was captured. Resuming it elsewhere records the wait as a pending span and
//! goes on with a span of its own, so that the causal chain stays one chain.

use crate::channel;
use crate::clock;
use crate::collector::timed;
use crate::local::CollectorLink;
use crate::local::TraceLocal;
use crate::local::TraceLocalView;
use crate::span::elapsed_ticks;
use crate::span::issued_by;
use crate::span::ticks_between;
use crate::span::Span;
use crate::span::State;
use crate::span::NO_PARENT;
use crate::trace::new_span_post;
use crate::trace::Outbound;
use crate::trace::SpanGuard;
use crate::trace::SpanGuardInner;
use vstd::prelude::*;
use vstd::std_specs::convert::IntoSpec;

verus! {

/// What an active handle remembers of its trace.
pub struct AsyncHandleInner {
    /// The collector of the trace.
    pub collector: CollectorLink,
    /// The span that the next pending span hangs from.
    pub next_pending_parent_id: u64,
    /// The tick from which the next wait is measured: that of the capture
    /// or of the last release. Zero once a resumption inside an open span
    /// has used it; zero is also a reading like any other.
    pub begin_ticks: u64,
    /// Whether a resumption inside an open span has used the tick since
    /// the capture or the last release: there is then no wait to measure.
    pub tick_used: bool,
}

impl AsyncHandleInner {
    /// What holds of every handle that was captured inside a trace: the
    /// span that the next pending span hangs from is a span.
    pub open spec fn wf(self) -> bool {
        self.next_pending_parent_id != NO_PARENT
    }

    /// The tick at which a span begins that a resumption at tick `now`
    /// opens inside an open span: the tick that the handle holds if that
    /// is not zero, else `now`.
    pub open spec fn begins_at(self, now: u64) -> u64 {
        if self.begin_ticks != 0 {
            self.begin_ticks
        } else {
            now
        }
    }

    /// The tick from which a resumption on an idle thread at tick `now`
    /// measures the wait: the tick of the capture or of the last release,
    /// whatever it reads, or `now` if that tick has been used.
    pub open spec fn waits_from(self, now: u64) -> u64 {
        if self.tick_used {
            now
        } else {
            self.begin_ticks
        }
    }

    /// The span that stands for the wait from the last capture or release
    /// to a resumption at tick `now` on the idle context `tl`. A handle
    /// whose tick was used by a resumption inside an open span has no
    /// wait to show: its pending span is empty.
    pub open spec fn pending_span(self, tl: TraceLocalView, event: u32, now: u64) -> Span {
        Span {
            id: tl.next_id(),
            state: State::Pending,
            parent_id: self.next_pending_parent_id,
            begin_ticks: self.waits_from(now),
            elapsed_ticks: ticks_between(self.waits_from(now), now),
            event,
        }
    }

    /// The span in which the work goes on after that wait.
    pub open spec fn continuation_span(self, tl: TraceLocalView, event: u32, now: u64) -> Span {
        Span::opened(tl.issue(1).next_id(), State::Normal, tl.next_id(), now, event)
    }

    /// The span that a resumption opens on the context `tl` while a span is
    /// open there.
    pub open spec fn nested_span(self, tl: TraceLocalView, event: u32, now: u64) -> Span {
        Span::opened(tl.next_id(), State::Normal, tl.enter_stack.last(), self.begins_at(now), event)
    }

    /// The handle after a resumption on an idle context: the next pending
    /// span will hang from the continuation.
    pub open spec fn chained_to(self, id: u64) -> AsyncHandleInner {
        AsyncHandleInner { next_pending_parent_id: id, ..self }
    }

    /// The handle once a resumption inside an open span has used its
    /// tick.
    pub open spec fn used_up(self) -> AsyncHandleInner {
        AsyncHandleInner { begin_ticks: 0, tick_used: true, ..self }
    }

    /// The handle once a scope that it was resumed in was released at tick
    /// `now`: the next wait is measured from there.
    pub open spec fn released_at(self, now: u64) -> AsyncHandleInner {
        AsyncHandleInner { begin_ticks: now, tick_used: false, ..self }
    }
}

/// A trace's causal chain in a form that can be moved to another thread or
/// kept across a suspension.
#[must_use]
pub struct AsyncHandle {
    /// `None` indicates that tracing is not enabled.
    pub(crate) inner: Option<AsyncHandleInner>,
}

impl View for AsyncHandle {
    type V = Option<AsyncHandleInner>;

    open(crate) spec fn view(&self) -> Option<AsyncHandleInner> {
        self.inner
    }
}

/// What holds of every handle: if it is an active one, it is anchored to a
/// span.
pub open spec fn handle_wf(handle: Option<AsyncHandleInner>) -> bool {
    handle matches Some(inner) ==> inner.wf()
}

/// What a handle captured on the context `tl` at tick `now` holds.
pub open spec fn captured(tl: TraceLocalView, now: u64) -> Option<AsyncHandleInner> {
    if tl.is_active() {
        Some(
            AsyncHandleInner {
                collector: tl.collector.unwrap(),
                next_pending_parent_id: tl.enter_stack.last(),
                begin_ticks: now,
                tick_used: false,
            },
        )
    } else {
        None
    }
}

/// Captures the trace that the thread is inside of, as it stands at tick
/// `now`: its collector and its innermost open span. Outside a trace the
/// handle is inert.
pub fn new_async_handle_at(tl: &TraceLocal, now: u64) -> (handle: AsyncHandle)
    requires
        tl@.wf(),
    ensures
        handle@ == captured(tl@, now),
        handle_wf(handle@),
{
    if tl.enter_stack.is_empty() {
        return AsyncHandle { inner: None };
    }
    let parent_id = tl.enter_stack[tl.enter_stack.len() - 1];
    let inner = AsyncHandleInner {
        collector: channel::share(tl.cur_collector.as_ref().unwrap()),
        next_pending_parent_id: parent_id,
        begin_ticks: now,
        tick_used: false,
    };

    AsyncHandle { inner: Some(inner) }
}

/// Binds the current tracing context to another executing context: captures
/// the trace that the thread is inside of, as it stands now. Outside a trace
/// the handle is inert.
#[inline]
pub fn new_async_handle(tl: &TraceLocal) -> (handle: AsyncHandle)
    requires
        tl@.wf(),
    ensures
        !tl@.is_active() ==> handle@ is None,
        exists|now: u64| handle@ == #[trigger] captured(tl@, now),
        handle_wf(handle@),
{
    if !tl.is_active() {
        assert(captured(tl@, 0) is None);
        return AsyncHandle { inner: None };
    }
    let now = clock::now();
    new_async_handle_at(tl, now)
}

/// The guard that a resumption on an idle thread returns. Its release ends
/// the thread's part in the trace and tells the handle when that was.
pub struct AsyncScopeGuard<'a> {
    /// The open span.
    pub inner: SpanGuardInner,
    /// The handle that was resumed; it learns the tick of the release.
    pub handle: &'a mut AsyncHandle,
}

/// The guard that a resumption returns.
pub enum AsyncGuard<'a> {
    /// The thread was idle: a pending span was recorded and a scope opened.
    AsyncScopeGuard(AsyncScopeGuard<'a>),
    /// The thread had a span open: an ordinary nested span was opened.
    SpanGuard(SpanGuard),
}

impl<'a> AsyncScopeGuard<'a> {
    /// The span that the guard keeps open.
    pub open(crate) spec fn span_view(&self) -> Span {
        self.inner@
    }

    /// Whether the guard's span is the only open span of `tl` and the
    /// handle is an active one: the state in which the guard may be
    /// released.
    pub open spec fn is_last_open(&self, tl: TraceLocalView) -> bool {
        &&& tl.enter_stack.len() == 1
        &&& tl.enter_stack.last() == self.span_view().id
        &&& self.handle@ is Some
    }

    /// Computes [`Self::is_last_open`].
    pub fn can_exit(&self, tl: &TraceLocal) -> (able: bool)
        ensures
            able == self.is_last_open(tl@),
    {
        tl.depth() == 1 && tl.current_span_id() == Some(self.inner.span.id)
            && self.handle.inner.is_some()
    }

    /// The span that the guard keeps open.
    pub fn span(&self) -> (span: Span)
        ensures
            span == self.span_view(),
    {
        self.inner.span
    }

    /// Releases the guard at tick `now`. The continuation is closed, the
    /// buffer is drained and the thread leaves the trace; the handle will
    /// measure its next wait from `now`. What the buffer held comes back,
    /// addressed to the handle's collector.
    pub fn exit_at(self, tl: &mut TraceLocal, now: u64) -> (out: Outbound)
        requires
            old(tl)@.wf(),
            self.is_last_open(old(tl)@),
        ensures
            out@ == old(tl)@.exit(self.span_view(), now).batch(),
            out.collector() == old(self.handle)@.unwrap().collector,
            final(self.handle)@ == Some(old(self.handle)@.unwrap().released_at(now)),
            handle_wf(old(self.handle)@) ==> handle_wf(final(self.handle)@),
            final(tl)@ == old(tl)@.exit(self.span_view(), now).drained().leave(),
            final(tl)@.wf(),
            !final(tl)@.is_active(),
    {
        let AsyncScopeGuard { inner, handle } = self;
        inner.exit_at(tl, now);
        let mut snapshot = handle.inner.take().unwrap();
        snapshot.begin_ticks = now;
        snapshot.tick_used = false;
        let collector = channel::share(&snapshot.collector);
        handle.inner = Some(snapshot);
        let batch = tl.take();

        tl.cur_collector = None;
        tl.flushed = Ghost(tl.issued);
        Outbound::new(batch, collector)
    }

    /// Releases the guard now, sends the batch and returns the tick of the
    /// release.
    #[inline]
    pub fn exit(self, tl: &mut TraceLocal) -> (now: u64)
        requires
            old(tl)@.wf(),
            self.is_last_open(old(tl)@),
        ensures
            final(self.handle)@ == Some(old(self.handle)@.unwrap().released_at(now)),
            handle_wf(old(self.handle)@) ==> handle_wf(final(self.handle)@),
            final(tl)@ == old(tl)@.exit(self.span_view(), now).drained().leave(),
            final(tl)@.wf(),
            !final(tl)@.is_active(),
    {
        let now = clock::now();
        let out = self.exit_at(tl, now);
        out.send();
        now
    }
}

impl<'a> AsyncGuard<'a> {
    /// Whether the guard may be released on `tl`: a scope as the last open
    /// span, a nested span as the innermost.
    pub open spec fn is_releasable(&self, tl: TraceLocalView) -> bool {
        match self {
            AsyncGuard::AsyncScopeGuard(scope) => scope.is_last_open(tl),
            AsyncGuard::SpanGuard(span) => span.is_innermost(tl),
        }
    }

    /// Computes [`Self::is_releasable`].
    pub fn can_exit(&self, tl: &TraceLocal) -> (able: bool)
        ensures
            able == self.is_releasable(tl@),
    {
        match self {
            AsyncGuard::AsyncScopeGuard(scope) => scope.can_exit(tl),
            AsyncGuard::SpanGuard(span) => span.can_exit(tl),
        }
    }

    /// Releases the guard at tick `now`. A scope hands back the batch that
    /// is to be sent; a nested span only closes.
    pub fn exit_at(self, tl: &mut TraceLocal, now: u64) -> (out: Option<Outbound>)
        requires
            old(tl)@.wf(),
            self.is_releasable(old(tl)@),
        ensures
            match self {
                AsyncGuard::AsyncScopeGuard(scope) => {
                    &&& out matches Some(o)
                    &&& o@ == old(tl)@.exit(scope.span_view(), now).batch()
                    &&& o.collector() == scope.handle@.unwrap().collector
                    &&& final(scope.handle)@ == Some(scope.handle@.unwrap().released_at(now))
                    &&& handle_wf(scope.handle@) ==> handle_wf(final(scope.handle)@)
                    &&& final(tl)@ == old(tl)@.exit(scope.span_view(), now).drained().leave()
                },
                AsyncGuard::SpanGuard(span) => {
                    &&& out is None
                    &&& final(tl)@ == old(tl)@.exit(span@, now)
                },
            },
            final(tl)@.wf(),
    {
        match self {
            AsyncGuard::AsyncScopeGuard(scope) => Some(scope.exit_at(tl, now)),
            AsyncGuard::SpanGuard(span) => {
                span.exit_at(tl, now);
                None
            },
        }
    }

    /// Releases the guard now, sends what is to be sent and returns the
    /// tick of the release.
    pub fn exit(self, tl: &mut TraceLocal) -> (now: u64)
        requires
            old(tl)@.wf(),
            self.is_releasable(old(tl)@),
        ensures
            match self {
                AsyncGuard::AsyncScopeGuard(scope) => {
                    &&& final(scope.handle)@ == Some(scope.handle@.unwrap().released_at(now))
                    &&& handle_wf(scope.handle@) ==> handle_wf(final(scope.handle)@)
                    &&& final(tl)@ == old(tl)@.exit(scope.span_view(), now).drained().leave()
                },
                AsyncGuard::SpanGuard(span) => final(tl)@ == old(tl)@.exit(span@, now),
            },
            final(tl)@.wf(),
    {
        let now = clock::now();
        match self.exit_at(tl, now) {
            Some(out) => {
                out.send();
            },
            None => {},
        }
        now
    }
}

impl AsyncHandle {
    /// Whether the handle was captured inside a trace.
    pub fn is_active(&self) -> (active: bool)
        ensures
            active == (self@ is Some),
    {
        self.inner.is_some()
    }

    /// The span that the next pending span will hang from.
    pub fn next_pending_parent_id(&self) -> (id: Option<u64>)
        ensures
            id == match self@ {
                Some(inner) => Some(inner.next_pending_parent_id),
                None => None,
            },
    {
        match &self.inner {
            Some(inner) => Some(inner.next_pending_parent_id),
            None => None,
        }
    }

    /// Whether a resumption inside an open span has used the handle's
    /// tick.
    pub fn tick_used(&self) -> (used: Option<bool>)
        ensures
            used == match self@ {
                Some(inner) => Some(inner.tick_used),
                None => None,
            },
    {
        match &self.inner {
            Some(inner) => Some(inner.tick_used),
            None => None,
        }
    }

    /// The tick from which the next wait is measured.
    pub fn begin_ticks(&self) -> (ticks: Option<u64>)
        ensures
            ticks == match self@ {
                Some(inner) => Some(inner.begin_ticks),
                None => None,
            },
    {
        match &self.inner {
            Some(inner) => Some(inner.begin_ticks),
            None => None,
        }
    }

    /// Resumes on an idle thread at tick `now`. Records the wait as a
    /// pending span under the handle's anchor, opens the continuation under
    /// the pending span, moves the anchor to the continuation and joins the
    /// thread to the handle's trace.
    #[inline]
    pub(crate) fn new_scope(&mut self, event: u32, tl: &mut TraceLocal, now: u64) -> (guard:
        AsyncScopeGuard<'_>)
        requires
            old(self)@ is Some,
            old(tl)@.wf(),
            !old(tl)@.is_active(),
            old(tl)@.can_issue(2),
        ensures
            guard.span_view() == old(self)@.unwrap().continuation_span(old(tl)@, event, now),
            guard.handle@ == Some(
                old(self)@.unwrap().chained_to(guard.span_view().id),
            ),
            *final(self) == *final(guard.handle),
            final(tl)@ == old(tl)@.issue(2).record(
                old(self)@.unwrap().pending_span(old(tl)@, event, now),
            ).enter(guard.span_view().id).join(old(self)@.unwrap().collector),
            final(tl)@.wf(),
    {
        let mut snapshot = self.inner.take().unwrap();

        let pending_id = tl.new_span_id().unwrap();
        let pending_begin = if snapshot.tick_used {
            now
        } else {
            snapshot.begin_ticks
        };
        let pending_span = Span {
            id: pending_id,
            state: State::Pending,
            parent_id: snapshot.next_pending_parent_id,
            begin_ticks: pending_begin,
            elapsed_ticks: elapsed_ticks(pending_begin, now),
            event,
        };
        tl.record(pending_span);

        let span_id = tl.new_span_id().unwrap();
        let span_inner = SpanGuardInner::enter(
            Span {
                id: span_id,
                state: State::Normal,
                parent_id: pending_id,
                begin_ticks: now,
                elapsed_ticks: 0,
                event,
            },
            tl,
        );
        snapshot.next_pending_parent_id = span_id;

        tl.cur_collector = Some(channel::share(&snapshot.collector));
        self.inner = Some(snapshot);

        AsyncScopeGuard { inner: span_inner, handle: self }
    }

    /// Resumes at tick `now` on a thread that has a span open: opens an
    /// ordinary span under it. The span begins at the handle's tick if that
    /// is not zero, else at `now`; the tick is zero from then on and marked
    /// as used.
    #[inline]
    pub(crate) fn new_span(&mut self, event: u32, tl: &mut TraceLocal, now: u64) -> (guard:
        SpanGuard)
        requires
            old(self)@ is Some,
            old(tl)@.wf(),
            old(tl)@.is_active(),
            old(tl)@.can_issue(1),
        ensures
            guard@ == old(self)@.unwrap().nested_span(old(tl)@, event, now),
            final(self)@ == Some(old(self)@.unwrap().used_up()),
            final(tl)@ == old(tl)@.issue(1).enter(guard@.id),
            final(tl)@.wf(),
    {
        let mut snapshot = self.inner.take().unwrap();

        let parent_id = tl.current_span_id().unwrap();
        let id = tl.new_span_id().unwrap();
        let span_inner = SpanGuardInner::enter(
            Span {
                id,
                state: State::Normal,
                parent_id,
                begin_ticks: if snapshot.begin_ticks != 0 {
                    snapshot.begin_ticks
                } else {
                    now
                },
                elapsed_ticks: 0,
                event,
            },
            tl,
        );
        snapshot.begin_ticks = 0;
        snapshot.tick_used = true;
        self.inner = Some(snapshot);

        SpanGuard { inner: span_inner }
    }

    /// Resumes the trace at tick `now` on the thread that owns `tl`.
    ///
    /// An inert handle does nothing and returns `None`. On an idle thread
    /// the wait since the capture, or since the last release, is recorded
    /// as a pending span and a scope is opened under it; on a thread with a
    /// span open, an ordinary span is opened under that. Where the context
    /// has too few identities left for that, nothing changes and `None`
    /// comes back.
    pub fn start_trace_at(&mut self, event: u32, tl: &mut TraceLocal, now: u64) -> (guard: Option<
        AsyncGuard<'_>,
    >)
        requires
            old(tl)@.wf(),
            handle_wf(old(self)@),
        ensures
            resume_post(
                old(self)@,
                old(tl)@,
                event,
                now,
                final(tl)@,
                handle_after(guard, final(self)@),
                kind_of(guard),
            ),
            guard matches Some(AsyncGuard::AsyncScopeGuard(scope)) ==> *final(self) == *final(scope.handle),
            handle_wf(handle_after(guard, final(self)@)),
            final(tl)@.wf(),
    {
        if self.inner.is_none() {
            return None;
        }
        if tl.enter_stack.is_empty() {
            if tl.can_issue(2) {
                Some(AsyncGuard::AsyncScopeGuard(self.new_scope(event, tl, now)))
            } else {
                None
            }
        } else {
            if tl.can_issue(1) {
                Some(AsyncGuard::SpanGuard(self.new_span(event, tl, now)))
            } else {
                None
            }
        }
    }

    /// Resumes the trace now on the thread that owns `tl`. See
    /// [`Self::start_trace_at`].
    pub fn start_trace<T: Into<u32>>(&mut self, event: T, tl: &mut TraceLocal) -> (guard: Option<
        AsyncGuard<'_>,
    >)
        requires
            old(tl)@.wf(),
            handle_wf(old(self)@),
        ensures
            old(self)@ is None ==> guard is None && final(self)@ is None && final(tl)@ == old(tl)@,
            exists|code: u32, now: u64|
                {
                    &&& T::obeys_into_spec() ==> code == event.into_spec()
                    &&& #[trigger] resume_post(
                        old(self)@,
                        old(tl)@,
                        code,
                        now,
                        final(tl)@,
                        handle_after(guard, final(self)@),
                        kind_of(guard),
                    )
                },
            guard matches Some(AsyncGuard::AsyncScopeGuard(scope)) ==> *final(self) == *final(scope.handle),
            handle_wf(handle_after(guard, final(self)@)),
            final(tl)@.wf(),
    {
        if self.inner.is_none() {
            assert(resume_post(self@, tl@, event.into_spec(), 0, tl@, self@, None));
            return None;
        }

        let event: u32 = event.into();
        let now = clock::now();
        self.start_trace_at(event, tl, now)
    }
}

/// Which guard a resumption returned, and the span that the guard keeps
/// open.
pub enum ResumeKind {
    /// A scope on a thread that was idle.
    Scope(Span),
    /// A span inside the open span of a thread.
    Nested(Span),
}

/// The guard of a resumption without its borrow of the handle.
pub open spec fn kind_of(guard: Option<AsyncGuard<'_>>) -> Option<ResumeKind> {
    match guard {
        Some(AsyncGuard::AsyncScopeGuard(scope)) => Some(ResumeKind::Scope(scope.span_view())),
        Some(AsyncGuard::SpanGuard(span)) => Some(ResumeKind::Nested(span@)),
        None => None,
    }
}

/// What the handle holds when a resumption returns: a scope guard has
/// borrowed the handle, otherwise the handle is as the call leaves it,
/// which is `released`.
pub open spec fn handle_after(guard: Option<AsyncGuard<'_>>, released: Option<AsyncHandleInner>) -> Option<
    AsyncHandleInner,
> {
    match guard {
        Some(AsyncGuard::AsyncScopeGuard(scope)) => scope.handle@,
        _ => released,
    }
}

/// What a resumption at tick `now` does: to the handle, which held `handle`
/// and holds `handle_after` when the call returns, and to the context,
/// which goes from `pre` to `post`.
pub open spec fn resume_post(
    handle: Option<AsyncHandleInner>,
    pre: TraceLocalView,
    event: u32,
    now: u64,
    post: TraceLocalView,
    handle_after: Option<AsyncHandleInner>,
    guard: Option<ResumeKind>,
) -> bool {
    match handle {
        None => guard is None && handle_after is None && post == pre,
        Some(h) => if !pre.is_active() && pre.can_issue(2) {
            let pending = h.pending_span(pre, event, now);
            let continuation = h.continuation_span(pre, event, now);
            &&& guard == Some(ResumeKind::Scope(continuation))
            &&& handle_after == Some(h.chained_to(continuation.id))
            &&& post == pre.issue(2).record(pending).enter(continuation.id).join(h.collector)
        } else if pre.is_active() && pre.can_issue(1) {
            let span = h.nested_span(pre, event, now);
            &&& guard == Some(ResumeKind::Nested(span))
            &&& handle_after == Some(h.used_up())
            &&& post == pre.issue(1).enter(span.id)
        } else {
            guard is None && handle_after == handle && post == pre
        },
    }
}

/// Whether one call of `new_span` took the context from `pre` to `post`.
pub open spec fn new_span_step(pre: TraceLocalView, post: TraceLocalView) -> bool {
    exists|event: u32, now: u64, guard: Option<SpanGuard>|
        #[trigger] new_span_post(pre, event, now, post, guard)
}

/// Outside a trace nothing is recorded. However many spans a thread asks
/// for while it is inside no trace, its context stays as it was, with an
/// empty buffer; each call is answered with `None`, and a handle captured
/// at any point in between is inert.
pub proof fn law_idle_calls_record_nothing(trail: Seq<TraceLocalView>)
    requires
        trail.len() > 0,
        trail[0].wf(),
        !trail[0].is_active(),
        forall|i: int| 0 <= i < trail.len() - 1 ==> #[trigger] new_span_step(trail[i], trail[i + 1]),
    ensures
        forall|i: int| 0 <= i < trail.len() ==> #[trigger] trail[i] == trail[0],
        trail.last().spans.len() == 0,
        trail.last().properties.len() == 0,
        forall|i: int, now: u64| 0 <= i < trail.len() ==> #[trigger] captured(trail[i], now) is None,
        forall|i: int, event: u32, now: u64, post: TraceLocalView, guard: Option<SpanGuard>|
            0 <= i < trail.len() && #[trigger] new_span_post(trail[i], event, now, post, guard)
                ==> guard is None,
    decreases trail.len(),
{
    if trail.len() > 1 {
        let front = trail.drop_last();
        assert forall|i: int| 0 <= i < front.len() - 1 implies #[trigger] new_span_step(
            front[i],
            front[i + 1],
        ) by {
            assert(new_span_step(trail[i], trail[i + 1]));
        }
        law_idle_calls_record_nothing(front);
        let last = trail.len() - 1;
        let i = last - 1;
        assert(front[i] == trail[0]);
        assert(new_span_step(trail[i], trail[i + 1]));
        assert forall|i: int| 0 <= i < trail.len() implies #[trigger] trail[i] == trail[0] by {
            if i < last {
                assert(front[i] == front[0]);
            }
        }
    }
}

/// A resumption of an inert handle does nothing, whatever the state of the
/// thread it is tried on.
pub proof fn law_inert_handle_resumes_nothing(
    pre: TraceLocalView,
    event: u32,
    now: u64,
    post: TraceLocalView,
    handle_after: Option<AsyncHandleInner>,
    guard: Option<ResumeKind>,
)
    requires
        resume_post(None, pre, event, now, post, handle_after, guard),
    ensures
        guard is None,
        handle_after is None,
        post == pre,
{
}

/// The wait is visible. A resumption on an idle thread at tick `now`, by
/// a handle whose tick has not been used, records a pending span under
/// the handle's anchor that lasts from that tick, whatever it reads, to
/// `now`: on a clock that did not wrap in between, exactly
/// `now - begin_ticks` nanoseconds of the wall clock, which is no less than
/// any time `slept` that passed in between. The continuation begins where
/// the pending span ends.
pub proof fn law_wait_is_recorded(
    handle: AsyncHandleInner,
    pre: TraceLocalView,
    event: u32,
    now: u64,
    slept: u64,
    root_begin: u64,
    anchor: u64,
)
    requires
        handle.wf(),
        !handle.tick_used,
        root_begin <= handle.begin_ticks,
        handle.begin_ticks + slept <= now,
    ensures
        ({
            let recorded = handle.pending_span(pre, event, now);
            let pending = timed(recorded, root_begin, anchor);
            let continuation = timed(handle.continuation_span(pre, event, now), root_begin, anchor);
            &&& recorded.begin_ticks == handle.begin_ticks
            &&& recorded.elapsed_ticks == now - handle.begin_ticks
            &&& recorded.elapsed_ticks >= slept
            &&& pending.state == State::Pending
            &&& pending.parent == Some(handle.next_pending_parent_id)
            &&& pending.end_time - pending.start_time == now - handle.begin_ticks
            &&& continuation.start_time == pending.end_time
        }),
{
}

/// A handle whose tick a resumption inside an open span has used has no
/// wait to show: resumed on an idle thread at tick `now`, it records an
/// empty pending span at `now`, where the continuation begins.
pub proof fn law_used_tick_shows_no_wait(handle: AsyncHandleInner, pre: TraceLocalView, event: u32, now: u64)
    requires
        handle.tick_used,
    ensures
        ({
            let recorded = handle.pending_span(pre, event, now);
            &&& recorded.begin_ticks == now
            &&& recorded.elapsed_ticks == 0
            &&& handle.continuation_span(pre, event, now).begin_ticks == now
        }),
{
}

/// A resumption on a thread with a span open nests: it records nothing,
/// and if it returns a guard, that keeps a normal span open under the span
/// that was innermost, whatever the handle's anchor. Released at tick
/// `released`, the span is recorded and the enter stack is as it was. No
/// guard comes back only where the context has no identity left.
pub proof fn law_resumed_inside_span_nests(
    handle: AsyncHandleInner,
    pre: TraceLocalView,
    event: u32,
    now: u64,
    post: TraceLocalView,
    handle_after: Option<AsyncHandleInner>,
    guard: Option<ResumeKind>,
    released: u64,
)
    requires
        pre.wf(),
        pre.is_active(),
        resume_post(Some(handle), pre, event, now, post, handle_after, guard),
    ensures
        post.spans == pre.spans,
        post.wf(),
        guard is Some <==> pre.can_issue(1),
        guard is None ==> post == pre && handle_after == Some(handle),
        guard matches Some(kind) ==> kind matches ResumeKind::Nested(span) && {
            &&& span.state == State::Normal
            &&& span.event == event
            &&& span.parent_id == pre.enter_stack.last()
            &&& span.begin_ticks == handle.begins_at(now)
            &&& !issued_by(pre.id_prefix, pre.issued, span.id)
            &&& post.enter_stack == pre.enter_stack.push(span.id)
            &&& handle_after == Some(handle.used_up())
            &&& post.exit(span, released).enter_stack == pre.enter_stack
            &&& post.exit(span, released).spans == pre.spans.push(span.closed_at(released))
            &&& post.exit(span, released).wf()
        },
{
    if pre.can_issue(1) {
        let span = handle.nested_span(pre, event, now);
        assert(post.exit(span, released).enter_stack =~= pre.enter_stack);
    }
}

/// Chained resumption. A handle that is resumed twice on a thread with a
/// span open, the first guard still held at the second resumption, records
/// nothing: no pending span. Each resumption that returns a guard opens a
/// normal span, the second under the first. A resumption returns no guard
/// only where the context has no identity left for its span.
pub proof fn law_resumed_twice_chained(
    handle: AsyncHandleInner,
    pre: TraceLocalView,
    first: (u32, u64),
    mid: TraceLocalView,
    handle_mid: Option<AsyncHandleInner>,
    first_guard: Option<ResumeKind>,
    second: (u32, u64),
    post: TraceLocalView,
    handle_post: Option<AsyncHandleInner>,
    second_guard: Option<ResumeKind>,
)
    requires
        pre.wf(),
        pre.is_active(),
        resume_post(Some(handle), pre, first.0, first.1, mid, handle_mid, first_guard),
        resume_post(handle_mid, mid, second.0, second.1, post, handle_post, second_guard),
    ensures
        post.spans == pre.spans,
        first_guard is Some <==> pre.can_issue(1),
        second_guard is Some <==> pre.can_issue(2),
        first_guard matches Some(kind) ==> kind matches ResumeKind::Nested(a) && {
            &&& a.state == State::Normal
            &&& a.event == first.0
            &&& a.parent_id == pre.enter_stack.last()
        },
        second_guard matches Some(kind) ==> kind matches ResumeKind::Nested(b) && first_guard matches Some(
            ResumeKind::Nested(a),
        ) && {
            &&& b.state == State::Normal
            &&& b.event == second.0
            &&& b.parent_id == a.id
            &&& a.id != b.id
            &&& post.enter_stack == pre.enter_stack.push(a.id).push(b.id)
        },
{
}

/// Chained resumption, the first guard released at tick `released` before
/// the second resumption: only the first span has been recorded, closed,
/// and no pending span. If the second resumption returns a guard, it
/// opens a normal span that is a sibling of the first under the span that
/// was open.
pub proof fn law_resumed_twice_siblings(
    handle: AsyncHandleInner,
    pre: TraceLocalView,
    first: (u32, u64),
    mid: TraceLocalView,
    handle_mid: Option<AsyncHandleInner>,
    first_guard: Option<ResumeKind>,
    released: u64,
    second: (u32, u64),
    post: TraceLocalView,
    handle_post: Option<AsyncHandleInner>,
    second_guard: Option<ResumeKind>,
)
    requires
        pre.wf(),
        pre.is_active(),
        resume_post(Some(handle), pre, first.0, first.1, mid, handle_mid, first_guard),
        first_guard matches Some(ResumeKind::Nested(a)) && resume_post(
            handle_mid,
            mid.exit(a, released),
            second.0,
            second.1,
            post,
            handle_post,
            second_guard,
        ),
    ensures
        first_guard matches Some(ResumeKind::Nested(a)) && {
            &&& a.state == State::Normal
            &&& a.event == first.0
            &&& a.parent_id == pre.enter_stack.last()
            &&& post.spans == pre.spans.push(a.closed_at(released))
            &&& second_guard is Some <==> pre.can_issue(2)
            &&& second_guard matches Some(kind) ==> kind matches ResumeKind::Nested(b) && {
                &&& b.state == State::Normal
                &&& b.event == second.0
                &&& b.parent_id == pre.enter_stack.last()
                &&& a.id != b.id
                &&& post.enter_stack == pre.enter_stack.push(b.id)
            }
        },
{
    let a = first_guard->Some_0->Nested_0;
    assert(mid.exit(a, released).enter_stack =~= pre.enter_stack);
}

/// The chain across threads. A resumption on an idle thread that returns a
/// guard has recorded, on the resuming context, a pending span that hangs
/// from the handle's anchor, and has opened the continuation under the
/// pending span, so that both have a parent; the two carry identities that
/// the context had never handed out, and the handle is anchored to the
/// continuation from then on.
pub proof fn law_resumed_on_idle_thread_extends_chain(
    handle: AsyncHandleInner,
    pre: TraceLocalView,
    event: u32,
    now: u64,
    post: TraceLocalView,
    handle_after: Option<AsyncHandleInner>,
    guard: Option<ResumeKind>,
)
    requires
        handle.wf(),
        pre.wf(),
        !pre.is_active(),
        resume_post(Some(handle), pre, event, now, post, handle_after, guard),
    ensures
        guard is Some <==> pre.can_issue(2),
        guard is None ==> post == pre && handle_after == Some(handle),
        guard matches Some(kind) ==> kind matches ResumeKind::Scope(continuation) && {
            let pending = post.spans.last();
            &&& post.spans == seq![pending]
            &&& post.enter_stack == seq![continuation.id]
            &&& pending.state == State::Pending
            &&& pending.parent_id == handle.next_pending_parent_id
            &&& pending.parent_id != NO_PARENT
            &&& pending.begin_ticks == handle.waits_from(now)
            &&& pending.elapsed_ticks == ticks_between(handle.waits_from(now), now)
            &&& !handle.tick_used ==> pending.begin_ticks == handle.begin_ticks
            &&& continuation.state == State::Normal
            &&& continuation.parent_id == pending.id
            &&& continuation.begin_ticks == now
            &&& pending.id != continuation.id
            &&& pending.id != NO_PARENT
            &&& post.owns(pending.id)
            &&& post.owns(continuation.id)
            &&& !issued_by(pre.id_prefix, pre.issued, pending.id)
            &&& !issued_by(pre.id_prefix, pre.issued, continuation.id)
            &&& post.collector == Some(handle.collector)
            &&& handle_after == Some(handle.chained_to(continuation.id))
            &&& handle_wf(handle_after)
            &&& post.wf()
        },
{
    if pre.can_issue(2) {
        let pending = handle.pending_span(pre, event, now);
        let continuation = handle.continuation_span(pre, event, now);
        assert(post.spans =~= seq![pending]);
        assert(post.enter_stack =~= seq![continuation.id]);
    }
}

} // verus!
