//! Spans, the batches they travel in, and the numbering of spans.

use vstd::prelude::*;

verus! {

/// What a span measures.
#[derive(Clone, Copy, Debug, PartialEq, Eq, Structural)]
pub enum State {
    /// Work that was executed between the opening and the closing of a scope.
    Normal,
    /// The wait between the capture of an async handle and its resumption.
    Pending,
}

/// One recorded interval.
#[derive(Clone, Copy, Debug, PartialEq, Eq, Structural)]
pub struct Span {
    /// Identity of the span; never [`NO_PARENT`].
    pub id: u64,
    pub state: State,
    /// Identity of the causal predecessor, or [`NO_PARENT`] for a root.
    pub parent_id: u64,
    /// Tick at which the measured interval began.
    pub begin_ticks: u64,
    /// Length of the interval in ticks; zero while the span is still open.
    pub elapsed_ticks: u64,
    /// Caller's tag for the call site; not interpreted here.
    pub event: u32,
}

/// The value of `parent_id` that marks a span without a parent.
pub const NO_PARENT: u64 = 0;

/// How many sequence numbers one recording context can hand out.
pub const SEQ_LIMIT: u32 = 0xffff_ffff;

/// The identity of the span with sequence number `seq` of the recording
/// context with prefix `prefix`: the prefix in the high half, the sequence
/// number plus one in the low half.
pub open spec fn span_id(id_prefix: u32, seq: u32) -> u64
    recommends
        seq < SEQ_LIMIT,
{
    (id_prefix * 0x1_0000_0000 + seq + 1) as u64
}

/// Whether `id` is one of the first `count` identities of the context with
/// prefix `id_prefix`.
pub open spec fn issued_by(id_prefix: u32, count: u32, id: u64) -> bool {
    span_id(id_prefix, 0) <= id < span_id(id_prefix, 0) + count
}

/// Computes [`span_id`].
pub fn make_span_id(id_prefix: u32, seq: u32) -> (id: u64)
    requires
        seq < SEQ_LIMIT,
    ensures
        id == span_id(id_prefix, seq),
        id != NO_PARENT,
        issued_by(id_prefix, (seq + 1) as u32, id),
{
    id_prefix as u64 * 0x1_0000_0000u64 + seq as u64 + 1u64
}

/// Two identities are equal only if both their prefixes and their sequence
/// numbers are: contexts with different prefixes never name the same span,
/// and one context never names two spans alike.
pub proof fn lemma_span_id_injective(prefix_a: u32, seq_a: u32, prefix_b: u32, seq_b: u32)
    requires
        seq_a < SEQ_LIMIT,
        seq_b < SEQ_LIMIT,
        span_id(prefix_a, seq_a) == span_id(prefix_b, seq_b),
    ensures
        prefix_a == prefix_b,
        seq_a == seq_b,
{
}

/// The ticks from `begin` to `now` on a counter that wraps at 2^64.
pub open spec fn ticks_between(begin: u64, now: u64) -> u64 {
    if now >= begin {
        (now - begin) as u64
    } else {
        (now - begin + 0x1_0000_0000_0000_0000) as u64
    }
}

/// Computes [`ticks_between`] without overflow.
pub fn elapsed_ticks(begin: u64, now: u64) -> (elapsed: u64)
    ensures
        elapsed == ticks_between(begin, now),
{
    now.wrapping_sub(begin)
}

impl Span {
    /// A span that has just been opened: no time has elapsed on it.
    pub open spec fn opened(id: u64, state: State, parent_id: u64, begin_ticks: u64, event: u32) -> Span {
        Span { id, state, parent_id, begin_ticks, elapsed_ticks: 0, event }
    }

    /// The span as it is recorded when its scope is left at tick `now`.
    pub open spec fn closed_at(self, now: u64) -> Span {
        Span { elapsed_ticks: ticks_between(self.begin_ticks, now), ..self }
    }

    pub open spec fn is_root(self) -> bool {
        self.parent_id == NO_PARENT
    }
}

/// A batch of recorded spans with the properties attached while they were
/// recorded: what one thread hands to the collector at a time.
#[derive(Debug)]
pub struct SpanSet {
    pub spans: Vec<Span>,
    pub properties: Vec<Vec<u8>>,
}

/// The contents of a [`SpanSet`].
#[verifier::ext_equal]
pub struct SpanSetView {
    pub spans: Seq<Span>,
    pub properties: Seq<Seq<u8>>,
}

/// The byte strings held by a list of properties.
pub open spec fn property_bytes(properties: Seq<Vec<u8>>) -> Seq<Seq<u8>> {
    properties.map_values(|p: Vec<u8>| p@)
}

impl View for SpanSet {
    type V = SpanSetView;

    open spec fn view(&self) -> SpanSetView {
        SpanSetView { spans: self.spans@, properties: property_bytes(self.properties@) }
    }
}

impl SpanSet {
    /// An empty batch.
    pub fn new() -> (set: SpanSet)
        ensures
            set@.spans.len() == 0,
            set@.properties.len() == 0,
    {
        SpanSet { spans: Vec::new(), properties: Vec::new() }
    }

    /// Swaps the batch for an empty one and returns what it held.
    pub fn take(&mut self) -> (taken: SpanSet)
        ensures
            taken@ == old(self)@,
            final(self)@.spans.len() == 0,
            final(self)@.properties.len() == 0,
    {
        let mut taken = SpanSet::new();
        std::mem::swap(self, &mut taken);
        taken
    }
}

} // verus!
