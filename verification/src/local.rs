//! The recording context that one thread owns.

use crate::span::issued_by;
use crate::span::make_span_id;
use crate::span::property_bytes;
use crate::span::span_id;
use crate::span::Span;
use crate::span::SpanSet;
use crate::span::SpanSetView;
use crate::span::SEQ_LIMIT;
use crossbeam::channel::Sender;
use std::sync::Arc;
use vstd::prelude::*;

verus! {

/// The sending end through which a thread reaches the collector of a trace.
pub type CollectorLink = Arc<Sender<SpanSet>>;

/// The state of one thread's recording: which spans are open, which were
/// recorded since the last flush, and which trace they belong to.
///
/// A context belongs to one thread and serves one trace at a time.
pub struct TraceLocal {
    pub(crate) id_prefix: u32,
    pub(crate) issued: u32,
    pub(crate) flushed: Ghost<u32>,
    pub(crate) enter_stack: Vec<u64>,
    pub(crate) span_set: SpanSet,
    pub(crate) cur_collector: Option<CollectorLink>,
}

/// The contents of a [`TraceLocal`].
#[verifier::ext_equal]
pub struct TraceLocalView {
    /// High half of every identity this context hands out.
    pub id_prefix: u32,
    /// How many identities the context has handed out.
    pub issued: u32,
    /// How many it had handed out when it last left a trace: the spans
    /// numbered before that have all gone to a collector.
    pub flushed: u32,
    /// Identities of the open spans, outermost first.
    pub enter_stack: Seq<u64>,
    /// Spans recorded since the last flush, in the order of their recording.
    pub spans: Seq<Span>,
    /// Properties attached since the last flush.
    pub properties: Seq<Seq<u8>>,
    /// The collector of the trace that the context records for, if any.
    pub collector: Option<CollectorLink>,
}

impl TraceLocalView {
    /// A context that has recorded nothing yet.
    pub open spec fn initial(id_prefix: u32) -> TraceLocalView {
        TraceLocalView {
            id_prefix,
            issued: 0,
            flushed: 0,
            enter_stack: Seq::empty(),
            spans: Seq::empty(),
            properties: Seq::empty(),
            collector: None,
        }
    }

    /// Whether a span is open, which is to say whether the thread is inside
    /// a trace.
    pub open spec fn is_active(self) -> bool {
        self.enter_stack.len() > 0
    }

    /// Whether `n` more identities can be handed out.
    pub open spec fn can_issue(self, n: nat) -> bool {
        self.issued + n <= SEQ_LIMIT
    }

    /// The identity that is handed out next.
    pub open spec fn next_id(self) -> u64 {
        span_id(self.id_prefix, self.issued)
    }

    /// Whether this context has handed out `id` since it last left a
    /// trace.
    pub open spec fn owns(self, id: u64) -> bool {
        &&& issued_by(self.id_prefix, self.issued, id)
        &&& !issued_by(self.id_prefix, self.flushed, id)
    }

    /// Whether `id` was handed out and names neither an open span nor a
    /// recorded one, and is younger than every open span.
    pub open spec fn is_unused(self, id: u64) -> bool {
        &&& self.owns(id)
        &&& forall|i: int| 0 <= i < self.enter_stack.len() ==> self.enter_stack[i] < id
        &&& forall|j: int| 0 <= j < self.spans.len() ==> (#[trigger] self.spans[j]).id != id
    }

    /// The numbering invariant: every span that the context holds carries an
    /// identity that the context handed out, no identity occurs twice, and
    /// an inner open span is younger than an outer one.
    pub open spec fn numbering_wf(self) -> bool {
        &&& self.flushed <= self.issued
        &&& forall|i: int| 0 <= i < self.enter_stack.len() ==> self.owns(#[trigger] self.enter_stack[i])
        &&& forall|i: int, j: int|
            0 <= i < j < self.enter_stack.len() ==> self.enter_stack[i] < self.enter_stack[j]
        &&& forall|j: int| 0 <= j < self.spans.len() ==> self.owns((#[trigger] self.spans[j]).id)
        &&& forall|i: int, j: int|
            0 <= i < j < self.spans.len() ==> (#[trigger] self.spans[i]).id != (
            #[trigger] self.spans[j]).id
        &&& forall|i: int, j: int|
            0 <= i < self.enter_stack.len() && 0 <= j < self.spans.len() ==> #[trigger] self.enter_stack[i]
                != (#[trigger] self.spans[j]).id
    }

    /// The invariant of a context between two operations: the numbering
    /// invariant, and outside a trace nothing is buffered and no collector
    /// is attached, while inside one a collector is.
    pub open spec fn wf(self) -> bool {
        &&& self.numbering_wf()
        &&& !self.is_active() ==> self.spans.len() == 0 && self.properties.len() == 0
        &&& self.is_active() <==> self.collector is Some
    }

    /// The context after it handed out `n` identities.
    pub open spec fn issue(self, n: nat) -> TraceLocalView
        recommends
            self.can_issue(n),
    {
        TraceLocalView { issued: (self.issued + n) as u32, ..self }
    }

    /// The context after the span `id` was opened.
    pub open spec fn enter(self, id: u64) -> TraceLocalView {
        TraceLocalView { enter_stack: self.enter_stack.push(id), ..self }
    }

    /// The context after a finished span was put into the buffer.
    pub open spec fn record(self, span: Span) -> TraceLocalView {
        TraceLocalView { spans: self.spans.push(span), ..self }
    }

    /// The context after the innermost open span, `span`, was closed at
    /// tick `now`.
    pub open spec fn exit(self, span: Span, now: u64) -> TraceLocalView
        recommends
            self.is_active(),
            self.enter_stack.last() == span.id,
    {
        TraceLocalView {
            enter_stack: self.enter_stack.drop_last(),
            spans: self.spans.push(span.closed_at(now)),
            ..self
        }
    }

    /// The context after a property was attached.
    pub open spec fn attach(self, bytes: Seq<u8>) -> TraceLocalView {
        TraceLocalView { properties: self.properties.push(bytes), ..self }
    }

    /// The context once it records for the trace behind `collector`.
    pub open spec fn join(self, collector: CollectorLink) -> TraceLocalView {
        TraceLocalView { collector: Some(collector), ..self }
    }

    /// The context once it records for no trace: whatever it numbers from
    /// now on belongs to another part of a trace.
    pub open spec fn leave(self) -> TraceLocalView {
        TraceLocalView { collector: None, flushed: self.issued, ..self }
    }

    /// What the buffer holds.
    pub open spec fn batch(self) -> SpanSetView {
        SpanSetView { spans: self.spans, properties: self.properties }
    }

    /// The context after its buffer was handed out.
    pub open spec fn drained(self) -> TraceLocalView {
        TraceLocalView { spans: Seq::empty(), properties: Seq::empty(), ..self }
    }
}

impl View for TraceLocal {
    type V = TraceLocalView;

    open(crate) spec fn view(&self) -> TraceLocalView {
        TraceLocalView {
            id_prefix: self.id_prefix,
            issued: self.issued,
            flushed: self.flushed@,
            enter_stack: self.enter_stack@,
            spans: self.span_set.spans@,
            properties: property_bytes(self.span_set.properties@),
            collector: self.cur_collector,
        }
    }
}

impl TraceLocal {
    /// A fresh context whose spans will carry `id_prefix`. Contexts that
    /// feed one trace must have different prefixes.
    pub fn new(id_prefix: u32) -> (tl: TraceLocal)
        ensures
            tl@ == TraceLocalView::initial(id_prefix),
            tl@.wf(),
    {
        TraceLocal {
            id_prefix,
            issued: 0,
            flushed: Ghost(0),
            enter_stack: Vec::new(),
            span_set: SpanSet::new(),
            cur_collector: None,
        }
    }

    /// A fresh context that goes on with the numbering of an earlier one
    /// with the same prefix, which had handed out `issued` identities.
    pub fn with_issued(id_prefix: u32, issued: u32) -> (tl: TraceLocal)
        ensures
            tl@ == TraceLocalView::initial(id_prefix).issue(issued as nat).leave(),
            tl@.wf(),
    {
        TraceLocal {
            id_prefix,
            issued,
            flushed: Ghost(issued),
            enter_stack: Vec::new(),
            span_set: SpanSet::new(),
            cur_collector: None,
        }
    }

    /// Whether the thread is inside a trace.
    pub fn is_active(&self) -> (active: bool)
        ensures
            active == self@.is_active(),
    {
        self.enter_stack.len() > 0
    }

    /// Whether `n` more spans can be numbered.
    pub fn can_issue(&self, n: u32) -> (able: bool)
        ensures
            able == self@.can_issue(n as nat),
    {
        n <= SEQ_LIMIT - self.issued
    }

    /// The identity of the innermost open span.
    pub fn current_span_id(&self) -> (top: Option<u64>)
        ensures
            top == if self@.is_active() {
                Some(self@.enter_stack.last())
            } else {
                None
            },
    {
        let depth = self.enter_stack.len();
        if depth == 0 {
            None
        } else {
            Some(self.enter_stack[depth - 1])
        }
    }

    /// How many spans are open.
    pub fn depth(&self) -> (depth: usize)
        ensures
            depth == self@.enter_stack.len(),
    {
        self.enter_stack.len()
    }

    /// How many spans wait in the buffer.
    pub fn buffered(&self) -> (count: usize)
        ensures
            count == self@.spans.len(),
    {
        self.span_set.spans.len()
    }

    /// Hands out the next identity, or `None` when the numbers of this
    /// context are used up. Identities grow from one call to the next.
    pub fn new_span_id(&mut self) -> (id: Option<u64>)
        requires
            old(self)@.numbering_wf(),
        ensures
            final(self)@.numbering_wf(),
            old(self)@.wf() ==> final(self)@.wf(),
            old(self)@.can_issue(1) ==> id == Some(old(self)@.next_id()) && final(self)@ == old(
                self,
            )@.issue(1) && final(self)@.is_unused(old(self)@.next_id()),
            !old(self)@.can_issue(1) ==> id is None && final(self)@ == old(self)@,
    {
        if self.issued < SEQ_LIMIT {
            let id = make_span_id(self.id_prefix, self.issued);
            self.issued = self.issued + 1;
            Some(id)
        } else {
            None
        }
    }

    /// Puts a finished span into the buffer.
    pub(crate) fn record(&mut self, span: Span)
        requires
            old(self)@.numbering_wf(),
            old(self)@.is_unused(span.id),
        ensures
            final(self)@ == old(self)@.record(span),
            final(self)@.numbering_wf(),
    {
        self.span_set.spans.push(span);
    }

    /// Swaps the buffer for an empty one and returns what it held.
    pub fn take(&mut self) -> (taken: SpanSet)
        ensures
            taken@ == old(self)@.batch(),
            final(self)@ == old(self)@.drained(),
    {
        self.span_set.take()
    }
}

/// The source of the prefixes of a process's recording contexts: it hands
/// each prefix out once.
pub struct PrefixSource {
    next: u32,
}

impl PrefixSource {
    /// How many prefixes the source has handed out.
    pub closed spec fn taken(&self) -> nat {
        self.next as nat
    }

    /// A source that has handed out nothing yet.
    pub fn new() -> (source: PrefixSource)
        ensures
            source.taken() == 0,
    {
        PrefixSource { next: 0 }
    }

    /// Hands out a prefix that the source never handed out before: the
    /// number of those it handed out so far. `None`, and no change, once
    /// all prefixes below `u32::MAX` are taken.
    pub fn take(&mut self) -> (id_prefix: Option<u32>)
        ensures
            match id_prefix {
                Some(p) => p == old(self).taken() && final(self).taken() == old(self).taken() + 1,
                None => old(self).taken() == u32::MAX && final(self).taken() == old(self).taken(),
            },
    {
        if self.next < u32::MAX {
            let id_prefix = self.next;
            self.next = self.next + 1;
            Some(id_prefix)
        } else {
            None
        }
    }
}

/// Gives a thread that is inside no trace, and whose context cannot number
/// two more spans, a fresh context with a prefix of its own, if the source
/// has one left. Says whether the context was replaced.
pub fn renew_if_spent(tl: &mut TraceLocal, source: &mut PrefixSource) -> (renewed: bool)
    requires
        old(tl)@.wf(),
    ensures
        final(tl)@.wf(),
        renewed == (!old(tl)@.is_active() && !old(tl)@.can_issue(2) && old(source).taken() < u32::MAX),
        renewed ==> final(tl)@ == TraceLocalView::initial(old(source).taken() as u32),
        renewed ==> final(source).taken() == old(source).taken() + 1,
        !renewed ==> final(tl)@ == old(tl)@,
        !renewed ==> final(source).taken() == old(source).taken(),
{
    if tl.is_active() || tl.can_issue(2) {
        return false;
    }
    match source.take() {
        Some(id_prefix) => {
            *tl = TraceLocal::new(id_prefix);
            true
        },
        None => false,
    }
}

/// Whether two states of recording number their spans apart: they belong
/// to contexts with different prefixes, or one of them had left its trace
/// before the other numbered its first span.
pub open spec fn numbered_apart(a: TraceLocalView, b: TraceLocalView) -> bool {
    ||| a.id_prefix != b.id_prefix
    ||| a.issued <= b.flushed
    ||| b.issued <= a.flushed
}

/// States that number apart share no span: no span that one of them holds
/// carries the identity of a span that the other holds, open or recorded.
pub proof fn law_contexts_number_apart(a: TraceLocalView, b: TraceLocalView, x: u64, y: u64)
    requires
        numbered_apart(a, b),
        a.flushed <= a.issued,
        b.flushed <= b.issued,
        a.owns(x),
        b.owns(y),
    ensures
        x != y,
{
}

/// Within a context that keeps its invariant no identity occurs twice: the
/// open spans and the recorded ones are all different spans.
pub proof fn law_context_numbers_once(tl: TraceLocalView)
    requires
        tl.numbering_wf(),
    ensures
        (tl.enter_stack + tl.spans.map_values(|s: Span| s.id)).no_duplicates(),
{
    let ids = tl.enter_stack + tl.spans.map_values(|s: Span| s.id);
    assert forall|i: int, j: int| 0 <= i < ids.len() && 0 <= j < ids.len() && i != j implies ids[i]
        != ids[j] by {
        let depth = tl.enter_stack.len() as int;
        if i < depth && j < depth {
            if i < j {
                assert(tl.enter_stack[i] < tl.enter_stack[j]);
            } else {
                assert(tl.enter_stack[j] < tl.enter_stack[i]);
            }
        } else if i < depth {
            assert(tl.enter_stack[i] != tl.spans[j - depth].id);
        } else if j < depth {
            assert(tl.enter_stack[j] != tl.spans[i - depth].id);
        } else {
            if i < j {
                assert(tl.spans[i - depth].id != tl.spans[j - depth].id);
            } else {
                assert(tl.spans[j - depth].id != tl.spans[i - depth].id);
            }
        }
    }
}

} // verus!
