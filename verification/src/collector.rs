//! The collector of a trace and the merging of what it received.

use crate::channel;
use crate::local::law_contexts_number_apart;
use crate::local::numbered_apart;
use crate::local::TraceLocalView;
use crate::span::elapsed_ticks;
use crate::span::property_bytes;
use crate::span::ticks_between;
use crate::span::Span;
use crate::span::SpanSet;
use crate::span::SpanSetView;
use crate::span::State;
use crate::span::NO_PARENT;
use crossbeam::channel::Receiver;
use std::collections::HashSet;
use vstd::prelude::*;
use vstd::std_specs::hash::group_hash_axioms;

verus! {

broadcast use group_hash_axioms;

/// A span of a finished trace, with its place on the wall clock.
#[derive(Clone, Copy, Debug, PartialEq, Eq, Structural)]
pub struct TraceSpan {
    pub id: u64,
    /// The causal predecessor; `None` for the root.
    pub parent: Option<u64>,
    pub state: State,
    pub event: u32,
    /// Nanoseconds from the Unix epoch to the begin of the span.
    pub start_time: u128,
    /// Nanoseconds from the Unix epoch to the end of the span.
    pub end_time: u128,
}

/// A finished trace: all spans that reached the collector, in the order of
/// their arrival, and the properties attached to the trace.
#[derive(Debug)]
pub struct TraceResult {
    /// The identity of the one span without a parent.
    pub root_id: u64,
    pub spans: Vec<TraceSpan>,
    pub properties: Vec<Vec<u8>>,
}

/// The contents of a [`TraceResult`].
#[verifier::ext_equal]
pub struct TraceResultView {
    pub root_id: u64,
    pub spans: Seq<TraceSpan>,
    pub properties: Seq<Seq<u8>>,
}

impl View for TraceResult {
    type V = TraceResultView;

    open spec fn view(&self) -> TraceResultView {
        TraceResultView {
            root_id: self.root_id,
            spans: self.spans@,
            properties: property_bytes(self.properties@),
        }
    }
}

/// Why what a collector received is no trace.
#[derive(Clone, Copy, Debug, PartialEq, Eq, Structural)]
pub enum TraceError {
    /// Two spans carry this identity.
    DuplicateId(u64),
    /// No span is without a parent.
    MissingRoot,
    /// More than one span is without a parent.
    MultipleRoots,
}

impl TraceResultView {
    /// No two spans share an identity.
    pub open spec fn ids_distinct(self) -> bool {
        forall|i: int, j: int|
            0 <= i < j < self.spans.len() ==> (#[trigger] self.spans[i]).id != (
            #[trigger] self.spans[j]).id
    }

    /// Exactly one span has no parent, and `root_id` names it.
    pub open spec fn single_root(self) -> bool {
        exists|r: int|
            {
                &&& 0 <= r < self.spans.len()
                &&& (#[trigger] self.spans[r]).parent is None
                &&& self.spans[r].id == self.root_id
                &&& forall|i: int|
                    0 <= i < self.spans.len() && (#[trigger] self.spans[i]).parent is None ==> i == r
            }
    }

    /// What holds of every finished trace.
    pub open spec fn wf(self) -> bool {
        &&& self.ids_distinct()
        &&& self.single_root()
    }
}

/// The spans of a sequence of batches, batch after batch.
pub open spec fn flat_spans(batches: Seq<SpanSetView>) -> Seq<Span>
    decreases batches.len(),
{
    if batches.len() == 0 {
        Seq::empty()
    } else {
        flat_spans(batches.drop_last()) + batches.last().spans
    }
}

/// The properties of a sequence of batches, batch after batch.
pub open spec fn flat_properties(batches: Seq<SpanSetView>) -> Seq<Seq<u8>>
    decreases batches.len(),
{
    if batches.len() == 0 {
        Seq::empty()
    } else {
        flat_properties(batches.drop_last()) + batches.last().properties
    }
}

/// Whether the span at `j` carries the identity of a span before it.
pub open spec fn repeats_at(spans: Seq<Span>, j: int) -> bool {
    &&& 0 <= j < spans.len()
    &&& exists|i: int| 0 <= i < j && (#[trigger] spans[i]).id == spans[j].id
}

/// The first place at which a span carries the identity of a span before
/// it, if there is one.
pub open spec fn first_repeat(spans: Seq<Span>) -> Option<int>
    decreases spans.len(),
{
    if spans.len() == 0 {
        None
    } else {
        match first_repeat(spans.drop_last()) {
            Some(j) => Some(j),
            None => if repeats_at(spans, spans.len() - 1) {
                Some(spans.len() - 1)
            } else {
                None
            },
        }
    }
}

/// The places of the spans without a parent, in rising order.
pub open spec fn root_places(spans: Seq<Span>) -> Seq<int>
    decreases spans.len(),
{
    if spans.len() == 0 {
        Seq::empty()
    } else if spans.last().is_root() {
        root_places(spans.drop_last()).push(spans.len() - 1)
    } else {
        root_places(spans.drop_last())
    }
}

/// A recorded span on the wall clock, where the tick `root_begin` fell on
/// `anchor` nanoseconds since the Unix epoch and a tick lasts a nanosecond.
pub open spec fn timed(span: Span, root_begin: u64, anchor: u64) -> TraceSpan {
    let start = anchor + ticks_between(root_begin, span.begin_ticks);
    TraceSpan {
        id: span.id,
        parent: if span.is_root() {
            None
        } else {
            Some(span.parent_id)
        },
        state: span.state,
        event: span.event,
        start_time: start as u128,
        end_time: (start + span.elapsed_ticks) as u128,
    }
}

/// The trace that a sequence of batches amounts to, or the reason why it
/// amounts to none. A repeated identity is reported before a fault in the
/// roots.
pub open spec fn merged(batches: Seq<SpanSetView>, anchor: u64) -> Result<TraceResultView, TraceError> {
    let spans = flat_spans(batches);
    let roots = root_places(spans);
    match first_repeat(spans) {
        Some(j) => Err(TraceError::DuplicateId(spans[j].id)),
        None => if roots.len() == 0 {
            Err(TraceError::MissingRoot)
        } else if roots.len() > 1 {
            Err(TraceError::MultipleRoots)
        } else {
            let root = spans[roots[0]];
            Ok(
                TraceResultView {
                    root_id: root.id,
                    spans: spans.map_values(|s: Span| timed(s, root.begin_ticks, anchor)),
                    properties: flat_properties(batches),
                },
            )
        },
    }
}

/// Whether `result` is the outcome `expected`.
pub open spec fn is_outcome(
    result: Result<TraceResult, TraceError>,
    expected: Result<TraceResultView, TraceError>,
) -> bool {
    match (result, expected) {
        (Ok(trace), Ok(view)) => trace@ == view,
        (Err(e), Err(f)) => e == f,
        _ => false,
    }
}

/// The views of a list of batches.
pub open spec fn batch_views(batches: Seq<SpanSet>) -> Seq<SpanSetView> {
    batches.map_values(|b: SpanSet| b@)
}

/// A repeat within a prefix is the first repeat of the whole.
proof fn lemma_first_repeat_stable(spans: Seq<Span>, k: int)
    requires
        0 <= k <= spans.len(),
        first_repeat(spans.take(k)) is Some,
    ensures
        first_repeat(spans) == first_repeat(spans.take(k)),
    decreases spans.len() - k,
{
    if k == spans.len() {
        assert(spans.take(k) =~= spans);
    } else {
        assert(spans.take(k + 1).drop_last() =~= spans.take(k));
        lemma_first_repeat_stable(spans, k + 1);
    }
}

/// Without a first repeat no span repeats an earlier one.
proof fn lemma_no_repeat(spans: Seq<Span>)
    requires
        first_repeat(spans) is None,
    ensures
        forall|i: int, j: int|
            0 <= i < j < spans.len() ==> (#[trigger] spans[i]).id != (#[trigger] spans[j]).id,
    decreases spans.len(),
{
    if spans.len() > 0 {
        let front = spans.drop_last();
        lemma_no_repeat(front);
        assert(!repeats_at(spans, spans.len() - 1));
        assert forall|i: int, j: int| 0 <= i < j < spans.len() implies (#[trigger] spans[i]).id != (
        #[trigger] spans[j]).id by {
            if j < spans.len() - 1 {
                assert(front[i].id != front[j].id);
            }
        }
    }
}

/// The identity that is reported as repeated is that of the first span
/// that carries the identity of a span before it.
pub proof fn lemma_first_repeat_is_first(spans: Seq<Span>)
    requires
        first_repeat(spans) is Some,
    ensures
        repeats_at(spans, first_repeat(spans).unwrap()),
        forall|k: int| 0 <= k < first_repeat(spans).unwrap() ==> !repeats_at(spans, k),
    decreases spans.len(),
{
    let front = spans.drop_last();
    if first_repeat(front) is Some {
        lemma_first_repeat_is_first(front);
        let j = first_repeat(front).unwrap();
        let i = choose|i: int| 0 <= i < j && (#[trigger] front[i]).id == front[j].id;
        assert(spans[i].id == spans[j].id);
        assert forall|k: int| 0 <= k < j implies !repeats_at(spans, k) by {
            if repeats_at(spans, k) {
                let i2 = choose|i2: int| 0 <= i2 < k && (#[trigger] spans[i2]).id == spans[k].id;
                assert(front[i2].id == front[k].id);
                assert(repeats_at(front, k));
            }
        }
    } else {
        lemma_no_repeat(front);
        assert forall|k: int| 0 <= k < spans.len() - 1 implies !repeats_at(spans, k) by {
            if repeats_at(spans, k) {
                let i2 = choose|i2: int| 0 <= i2 < k && (#[trigger] spans[i2]).id == spans[k].id;
                assert(front[i2].id != front[k].id);
            }
        }
    }
}

/// The places that `root_places` lists are those of the spans without a
/// parent, each once and in rising order.
proof fn lemma_root_places(spans: Seq<Span>)
    ensures
        forall|k: int|
            0 <= k < root_places(spans).len() ==> 0 <= (#[trigger] root_places(spans)[k]) < spans.len()
                && spans[root_places(spans)[k]].is_root(),
        forall|k: int, l: int|
            0 <= k < l < root_places(spans).len() ==> root_places(spans)[k] < root_places(spans)[l],
        forall|i: int|
            0 <= i < spans.len() && (#[trigger] spans[i]).is_root() ==> root_places(spans).contains(i),
    decreases spans.len(),
{
    if spans.len() > 0 {
        let front = spans.drop_last();
        lemma_root_places(front);
        let places = root_places(spans);
        let earlier = root_places(front);
        assert forall|i: int| 0 <= i < spans.len() && (#[trigger] spans[i]).is_root() implies places.contains(
            i,
        ) by {
            if i < spans.len() - 1 {
                assert(front[i].is_root());
                let k = choose|k: int| 0 <= k < earlier.len() && earlier[k] == i;
                assert(places[k] == i);
            } else {
                assert(places[places.len() - 1] == i);
            }
        }
    }
}

/// The roots of a prefix are the first roots of the whole.
proof fn lemma_root_places_prefix(spans: Seq<Span>, k: int)
    requires
        0 <= k <= spans.len(),
    ensures
        root_places(spans.take(k)).len() <= root_places(spans).len(),
        forall|l: int|
            0 <= l < root_places(spans.take(k)).len() ==> root_places(spans.take(k))[l] == root_places(
                spans,
            )[l],
    decreases spans.len() - k,
{
    if k == spans.len() {
        assert(spans.take(k) =~= spans);
    } else {
        assert(spans.take(k + 1).drop_last() =~= spans.take(k));
        lemma_root_places_prefix(spans, k + 1);
    }
}

/// A trace that was merged from batches has no identity twice and exactly
/// one span without a parent.
pub proof fn lemma_merged_wf(batches: Seq<SpanSetView>, anchor: u64)
    requires
        merged(batches, anchor) is Ok,
    ensures
        merged(batches, anchor).unwrap().wf(),
{
    let spans = flat_spans(batches);
    let trace = merged(batches, anchor).unwrap();
    lemma_no_repeat(spans);
    lemma_root_places(spans);
    let roots = root_places(spans);
    let r = roots[0];
    assert(trace.spans[r].parent is None);
    assert forall|i: int| 0 <= i < trace.spans.len() && (#[trigger] trace.spans[i]).parent is None implies i
        == r by {
        assert(spans[i].is_root());
        let k = choose|k: int| 0 <= k < roots.len() && roots[k] == i;
    }
}

/// Spans that all differ in their identities have no first repeat.
proof fn lemma_distinct_has_no_repeat(spans: Seq<Span>)
    requires
        forall|i: int, j: int|
            0 <= i < j < spans.len() ==> (#[trigger] spans[i]).id != (#[trigger] spans[j]).id,
    ensures
        first_repeat(spans) is None,
    decreases spans.len(),
{
    if spans.len() > 0 {
        let front = spans.drop_last();
        assert forall|i: int, j: int| 0 <= i < j < front.len() implies (#[trigger] front[i]).id != (
        #[trigger] front[j]).id by {
            assert(spans[i].id != spans[j].id);
        }
        lemma_distinct_has_no_repeat(front);
        if repeats_at(spans, spans.len() - 1) {
            let i = choose|i: int| 0 <= i < spans.len() - 1 && (#[trigger] spans[i]).id == spans[spans.len() - 1].id;
            assert(spans[i].id != spans[spans.len() - 1].id);
        }
    }
}

/// Every span of the flattened batches is a span of one of the batches.
proof fn lemma_flat_member(batches: Seq<SpanSetView>, x: int)
    requires
        0 <= x < flat_spans(batches).len(),
    ensures
        exists|k: int, j: int|
            0 <= k < batches.len() && 0 <= j < batches[k].spans.len() && flat_spans(batches)[x]
                == #[trigger] batches[k].spans[j],
    decreases batches.len(),
{
    let front = batches.drop_last();
    if x < flat_spans(front).len() {
        lemma_flat_member(front, x);
        let (k, j) = choose|k: int, j: int|
            0 <= k < front.len() && 0 <= j < front[k].spans.len() && flat_spans(front)[x]
                == #[trigger] front[k].spans[j];
        assert(flat_spans(batches)[x] == batches[k].spans[j]);
    } else {
        let k = batches.len() - 1;
        let j = x - flat_spans(front).len();
        assert(flat_spans(batches)[x] == batches[k].spans[j]);
    }
}

/// The batches that the contexts of a trace flush.
pub open spec fn batches_of(cuts: Seq<TraceLocalView>) -> Seq<SpanSetView> {
    cuts.map_values(|cut: TraceLocalView| cut.batch())
}

/// Uniqueness by numbering. Batches that were flushed by contexts with
/// different prefixes, or by one context on leaving one part of a trace
/// after the other, hold no identity twice: merging them does not fail for
/// a repeated identity.
pub proof fn law_flushed_batches_do_not_repeat(cuts: Seq<TraceLocalView>, anchor: u64)
    requires
        forall|k: int| 0 <= k < cuts.len() ==> (#[trigger] cuts[k]).numbering_wf(),
        forall|k: int, l: int| 0 <= k < l < cuts.len() ==> numbered_apart(cuts[k], cuts[l]),
    ensures
        first_repeat(flat_spans(batches_of(cuts))) is None,
        !(merged(batches_of(cuts), anchor) matches Err(TraceError::DuplicateId(_))),
    decreases cuts.len(),
{
    let batches = batches_of(cuts);
    let flat = flat_spans(batches);
    if cuts.len() > 0 {
        let front = cuts.drop_last();
        let last = cuts.last();
        assert(batches.drop_last() =~= batches_of(front));
        law_flushed_batches_do_not_repeat(front, anchor);
        let before = flat_spans(batches_of(front));
        lemma_no_repeat(before);
        assert forall|i: int, j: int| 0 <= i < j < flat.len() implies (#[trigger] flat[i]).id != (
        #[trigger] flat[j]).id by {
            if j < before.len() {
                assert(before[i].id != before[j].id);
            } else if i < before.len() {
                lemma_flat_member(batches_of(front), i);
                let (k, m) = choose|k: int, m: int|
                    0 <= k < front.len() && 0 <= m < batches_of(front)[k].spans.len() && before[i]
                        == #[trigger] batches_of(front)[k].spans[m];
                assert(cuts[k].numbering_wf());
                assert(cuts[k].owns(cuts[k].spans[m].id));
                assert(last.owns(last.spans[j - before.len()].id));
                assert(numbered_apart(cuts[k], cuts[cuts.len() - 1]));
                law_contexts_number_apart(cuts[k], last, flat[i].id, flat[j].id);
            } else {
                assert(last.spans[i - before.len()].id != last.spans[j - before.len()].id);
            }
        }
        lemma_distinct_has_no_repeat(flat);
    }
}

/// Appending a batch appends its spans and its properties.
proof fn lemma_flat_push(batches: Seq<SpanSetView>, k: int)
    requires
        0 <= k < batches.len(),
    ensures
        flat_spans(batches.take(k + 1)) == flat_spans(batches.take(k)) + batches[k].spans,
        flat_properties(batches.take(k + 1)) == flat_properties(batches.take(k))
            + batches[k].properties,
{
    assert(batches.take(k + 1).drop_last() =~= batches.take(k));
}

/// Puts a recorded span on the wall clock. See [`timed`].
pub fn to_trace_span(span: Span, root_begin: u64, anchor: u64) -> (placed: TraceSpan)
    ensures
        placed == timed(span, root_begin, anchor),
{
    let start: u128 = anchor as u128 + elapsed_ticks(root_begin, span.begin_ticks) as u128;
    TraceSpan {
        id: span.id,
        parent: if span.parent_id == NO_PARENT {
            None
        } else {
            Some(span.parent_id)
        },
        state: span.state,
        event: span.event,
        start_time: start,
        end_time: start + span.elapsed_ticks as u128,
    }
}

/// Merges the batches of one trace into its result: the spans of all
/// batches in order, on a wall clock on which the root began at `anchor`
/// nanoseconds since the Unix epoch, and all properties.
///
/// Fails when two spans share an identity, when no span is without a
/// parent, and when several are.
#[verifier::loop_isolation(false)]
pub fn merge(batches: Vec<SpanSet>, anchor: u64) -> (result: Result<TraceResult, TraceError>)
    ensures
        is_outcome(result, merged(batch_views(batches@), anchor)),
        result matches Ok(trace) ==> trace@.wf(),
{
    let ghost views = batch_views(batches@);
    let mut spans: Vec<Span> = Vec::new();
    let mut properties: Vec<Vec<u8>> = Vec::new();
    let mut batches = batches;
    let mut b: usize = 0;
    while b < batches.len()
        invariant
            b <= batches.len(),
            batches.len() == views.len(),
            forall|k: int| b <= k < batches.len() ==> (#[trigger] batches[k])@ == views[k],
            spans@ == flat_spans(views.take(b as int)),
            property_bytes(properties@) == flat_properties(views.take(b as int)),
        decreases batches.len() - b,
    {
        proof {
            lemma_flat_push(views, b as int);
        }
        let ghost before = property_bytes(properties@);
        let batch = &mut batches[b];
        spans.append(&mut batch.spans);
        properties.append(&mut batch.properties);
        assert(property_bytes(properties@) =~= before + views[b as int].properties);
        b += 1;
    }
    assert(views.take(b as int) =~= views);

    let mut seen: HashSet<u64> = HashSet::new();
    let mut i: usize = 0;
    while i < spans.len()
        invariant
            i <= spans.len(),
            first_repeat(spans@.take(i as int)) is None,
            forall|id: u64|
                seen@.contains(id) <==> exists|k: int| 0 <= k < i && (#[trigger] spans[k]).id == id,
        decreases spans.len() - i,
    {
        let id = spans[i].id;
        assert(spans@.take(i + 1).drop_last() =~= spans@.take(i as int));
        if !seen.insert(id) {
            proof {
                let k = choose|k: int| 0 <= k < i && (#[trigger] spans[k]).id == id;
                assert(spans@.take(i + 1)[k].id == spans@.take(i + 1)[i as int].id);
                assert(repeats_at(spans@.take(i + 1), i as int));
                lemma_first_repeat_stable(spans@, i + 1);
            }
            return Err(TraceError::DuplicateId(id));
        }
        proof {
            if repeats_at(spans@.take(i + 1), i as int) {
                let k = choose|k: int| 0 <= k < i && (#[trigger] spans@.take(i + 1)[k]).id == id;
                assert(spans[k].id == id);
            }
        }
        i += 1;
    }
    assert(spans@.take(i as int) =~= spans@);

    let mut root: Option<usize> = None;
    let mut i: usize = 0;
    while i < spans.len()
        invariant
            i <= spans.len(),
            match root {
                Some(r) => root_places(spans@.take(i as int)) == seq![r as int],
                None => root_places(spans@.take(i as int)).len() == 0,
            },
        decreases spans.len() - i,
    {
        assert(spans@.take(i + 1).drop_last() =~= spans@.take(i as int));
        if spans[i].parent_id == NO_PARENT {
            if root.is_some() {
                proof {
                    lemma_root_places_prefix(spans@, i + 1);
                }
                return Err(TraceError::MultipleRoots);
            }
            root = Some(i);
        }
        i += 1;
    }
    assert(spans@.take(i as int) =~= spans@);

    let root = match root {
        Some(r) => r,
        None => {
            return Err(TraceError::MissingRoot);
        },
    };
    proof {
        lemma_root_places(spans@);
    }
    let root_id = spans[root].id;
    let root_begin = spans[root].begin_ticks;
    let mut placed: Vec<TraceSpan> = Vec::new();
    let mut i: usize = 0;
    while i < spans.len()
        invariant
            i <= spans.len(),
            placed.len() == i,
            forall|k: int| 0 <= k < i ==> #[trigger] placed[k] == timed(spans[k], root_begin, anchor),
        decreases spans.len() - i,
    {
        placed.push(to_trace_span(spans[i], root_begin, anchor));
        i += 1;
    }
    assert(placed@ =~= spans@.map_values(|s: Span| timed(s, root_begin, anchor)));
    let trace = TraceResult { root_id, spans: placed, properties };
    proof {
        lemma_merged_wf(views, anchor);
    }
    Ok(trace)
}

/// The receiving side of one trace: whoever holds it finishes the trace.
pub struct Collector {
    pub(crate) receiver: Receiver<SpanSet>,
    pub(crate) anchor_unix_nanos: u64,
}

impl Collector {
    /// The wall clock reading, in nanoseconds since the Unix epoch, that the
    /// first tick of the root span is anchored to.
    pub closed spec fn anchor(&self) -> u64 {
        self.anchor_unix_nanos
    }

    pub(crate) fn new(receiver: Receiver<SpanSet>, anchor_unix_nanos: u64) -> (collector: Collector)
        ensures
            collector.anchor() == anchor_unix_nanos,
    {
        Collector { receiver, anchor_unix_nanos }
    }

    /// Computes [`Self::anchor`].
    pub fn anchor_unix_nanos(&self) -> (nanos: u64)
        ensures
            nanos == self.anchor(),
    {
        self.anchor_unix_nanos
    }

    /// Takes every batch out of the channel that has arrived by now. Does
    /// not wait for threads that have not flushed yet.
    pub fn collect(&self) -> (batches: Vec<SpanSet>) {
        let mut batches: Vec<SpanSet> = Vec::new();
        while batches.len() < usize::MAX
            decreases usize::MAX - batches.len(),
        {
            match channel::try_recv(&self.receiver) {
                Some(batch) => {
                    batches.push(batch);
                },
                None => {
                    break ;
                },
            }
        }
        batches
    }

    /// Finishes the trace: merges what has arrived by now. See [`merge`].
    pub fn finish(self) -> (result: Result<TraceResult, TraceError>)
        ensures
            exists|batches: Seq<SpanSetView>| is_outcome(result, #[trigger] merged(batches, self.anchor())),
            result matches Ok(trace) ==> trace@.wf(),
    {
        let batches = self.collect();
        let result = merge(batches, self.anchor_unix_nanos);
        assert(is_outcome(result, merged(batch_views(batches@), self.anchor())));
        result
    }
}

/// A span that began and ended while the root was open lies within the
/// root on the wall clock too, and the root begins at the anchor.
pub proof fn law_span_within_root_is_timed_within(span: Span, root: Span, anchor: u64)
    requires
        root.begin_ticks <= span.begin_ticks,
        span.begin_ticks + span.elapsed_ticks <= root.begin_ticks + root.elapsed_ticks,
    ensures
        ({
            let outer = timed(root, root.begin_ticks, anchor);
            let inner = timed(span, root.begin_ticks, anchor);
            &&& outer.start_time == anchor
            &&& outer.end_time == anchor + root.elapsed_ticks
            &&& outer.start_time <= inner.start_time <= inner.end_time <= outer.end_time
            &&& inner.end_time - inner.start_time == span.elapsed_ticks
        }),
{
}

/// A root with one span nested in it. A thread that starts a trace at tick
/// `opened.0`, opens a span in it at `opened.1`, releases that at
/// `closed.0` and the root at `closed.1`, flushes one batch; merged, it is
/// a trace of exactly two spans: the nested span, which names the root as
/// its parent and lies within it, and the root, which has no parent.
pub proof fn law_root_with_nested_span_is_collected(
    pre: TraceLocalView,
    events: (u32, u32),
    opened: (u64, u64),
    closed: (u64, u64),
    anchor: u64,
)
    requires
        pre.wf(),
        !pre.is_active(),
        pre.can_issue(2),
        opened.0 <= opened.1 <= closed.0 <= closed.1,
    ensures
        ({
            let a = Span::opened(pre.next_id(), State::Normal, NO_PARENT, opened.0, events.0);
            let b = Span::opened(pre.issue(1).next_id(), State::Normal, a.id, opened.1, events.1);
            let batch = pre.issue(2).enter(a.id).enter(b.id).exit(b, closed.0).exit(a, closed.1).batch();
            &&& merged(seq![batch], anchor) matches Ok(trace)
            &&& trace.wf()
            &&& trace.root_id == a.id
            &&& trace.spans.len() == 2
            &&& trace.spans[0] == TraceSpan {
                id: b.id,
                parent: Some(a.id),
                state: State::Normal,
                event: events.1,
                start_time: (anchor + (opened.1 - opened.0)) as u128,
                end_time: (anchor + (closed.0 - opened.0)) as u128,
            }
            &&& trace.spans[1] == TraceSpan {
                id: a.id,
                parent: None,
                state: State::Normal,
                event: events.0,
                start_time: anchor as u128,
                end_time: (anchor + (closed.1 - opened.0)) as u128,
            }
            &&& trace.spans[1].start_time <= trace.spans[0].start_time
            &&& trace.spans[0].end_time <= trace.spans[1].end_time
        }),
{
    let a = Span::opened(pre.next_id(), State::Normal, NO_PARENT, opened.0, events.0);
    let b = Span::opened(pre.issue(1).next_id(), State::Normal, a.id, opened.1, events.1);
    let batch = pre.issue(2).enter(a.id).enter(b.id).exit(b, closed.0).exit(a, closed.1).batch();
    let batches = seq![batch];
    let recorded = seq![b.closed_at(closed.0), a.closed_at(closed.1)];
    assert(batch.spans =~= recorded);
    assert(batches.drop_last() =~= Seq::<SpanSetView>::empty());
    reveal_with_fuel(flat_spans, 2);
    let spans = flat_spans(batches);
    assert(spans =~= recorded);
    assert(a.id != b.id);
    assert(b.parent_id != NO_PARENT);
    assert forall|i: int, j: int| 0 <= i < j < spans.len() implies (#[trigger] spans[i]).id != (
    #[trigger] spans[j]).id by {}
    lemma_distinct_has_no_repeat(spans);
    assert(spans.drop_last() =~= seq![b.closed_at(closed.0)]);
    assert(spans.drop_last().drop_last() =~= Seq::<Span>::empty());
    reveal_with_fuel(root_places, 3);
    assert(root_places(spans) =~= seq![1int]);
    lemma_merged_wf(batches, anchor);
}

} // verus!
