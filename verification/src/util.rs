//! A finished trace as a chart: one row per span, each with a bar whose
//! place and length are in proportion to the root span.

use crate::collector::TraceSpan;
use std::collections::HashMap;
use std::collections::HashSet;
use vstd::arithmetic::div_mod::lemma_div_by_multiple;
use vstd::arithmetic::div_mod::lemma_div_is_ordered;
use vstd::arithmetic::div_mod::lemma_fundamental_div_mod;
use vstd::arithmetic::div_mod::lemma_fundamental_div_mod_converse;
use vstd::arithmetic::div_mod::lemma_hoist_over_denominator;
use vstd::prelude::*;
use vstd::std_specs::hash::group_hash_axioms;

verus! {

broadcast use group_hash_axioms;

/// The width of the chart in cells: a bar as long as the root's.
pub const BAR_LEN: usize = 70;

/// One row of the chart: blanks, a bar, blanks again, and the duration that
/// is written behind them.
#[derive(Clone, Copy, Debug, PartialEq, Eq, Structural)]
pub struct Bar {
    /// The span that the row shows.
    pub id: u64,
    /// Blank cells before the bar.
    pub leading: usize,
    /// Cells of the bar.
    pub bar: usize,
    /// Blank cells after the bar.
    pub trailing: usize,
    /// The span's duration in nanoseconds.
    pub duration: u128,
}

/// Why a list of spans cannot be drawn.
#[derive(Clone, Copy, Debug, PartialEq, Eq, Structural)]
pub enum DrawError {
    /// This span ends before it begins.
    EndsBeforeStart(u64),
    /// Two spans carry this identity.
    DuplicatedId(u64),
    /// No span is without a parent.
    NoRoot,
    /// This span does not lie within the chart that the root spans.
    OutsideRoot(u64),
}

/// Whether the last of `spans` carries the identity of one before it.
pub open spec fn repeats_last(spans: Seq<TraceSpan>) -> bool {
    exists|i: int| 0 <= i < spans.len() - 1 && (#[trigger] spans[i]).id == spans.last().id
}

/// The fault of the first span that has one: it ends before it begins, or
/// else it repeats the identity of an earlier span.
pub open spec fn first_fault(spans: Seq<TraceSpan>) -> Option<DrawError>
    decreases spans.len(),
{
    if spans.len() == 0 {
        None
    } else {
        match first_fault(spans.drop_last()) {
            Some(fault) => Some(fault),
            None => if spans.last().end_time < spans.last().start_time {
                Some(DrawError::EndsBeforeStart(spans.last().id))
            } else if repeats_last(spans) {
                Some(DrawError::DuplicatedId(spans.last().id))
            } else {
                None
            },
        }
    }
}

/// The place of the last span without a parent: the root of the chart.
pub open spec fn root_place(spans: Seq<TraceSpan>) -> Option<int>
    decreases spans.len(),
{
    if spans.len() == 0 {
        None
    } else if spans.last().parent is None {
        Some(spans.len() - 1)
    } else {
        root_place(spans.drop_last())
    }
}

/// The identities of the spans whose parent is `parent`, in the order of
/// the list.
pub open spec fn children_of(spans: Seq<TraceSpan>, parent: u64) -> Seq<u64>
    decreases spans.len(),
{
    if spans.len() == 0 {
        Seq::empty()
    } else if spans.last().parent == Some(parent) {
        children_of(spans.drop_last(), parent).push(spans.last().id)
    } else {
        children_of(spans.drop_last(), parent)
    }
}

/// Whether a span of the list carries `id`.
pub open spec fn has_span(spans: Seq<TraceSpan>, id: u64) -> bool {
    exists|i: int| 0 <= i < spans.len() && (#[trigger] spans[i]).id == id
}

/// The span of the list that carries `id`.
pub open spec fn span_of(spans: Seq<TraceSpan>, id: u64) -> TraceSpan {
    spans[choose|i: int| 0 <= i < spans.len() && (#[trigger] spans[i]).id == id]
}

/// The cells that `x` nanoseconds take in a chart whose width stands for
/// `total` nanoseconds.
pub open spec fn cells(x: int, total: int) -> int {
    if total <= 0 {
        0
    } else {
        x * BAR_LEN / total
    }
}

/// Whether a bar of `duration` nanoseconds that begins `offset` nanoseconds
/// after the root fits on a row: blanks and bar together are no wider than
/// the chart, so that a blank is left behind the bar.
pub open spec fn fits(offset: int, duration: int, total: int) -> bool {
    if total == 0 {
        offset == 0 && duration == 0
    } else {
        cells(offset, total) + cells(duration, total) <= BAR_LEN
    }
}

/// The row of a span that begins at `start` and lasts `duration`
/// nanoseconds, in a chart that begins at `pivot` and stands for `total`
/// nanoseconds.
pub open spec fn bar_at(id: u64, start: u128, duration: u128, pivot: u128, total: u128) -> Result<
    Bar,
    DrawError,
> {
    let offset = start - pivot;
    if offset < 0 || !fits(offset, duration as int, total as int) {
        Err(DrawError::OutsideRoot(id))
    } else {
        Ok(
            Bar {
                id,
                leading: cells(offset, total as int) as usize,
                bar: cells(duration as int, total as int) as usize,
                trailing: (BAR_LEN + 1 - cells(offset, total as int) - cells(
                    duration as int,
                    total as int,
                )) as usize,
                duration,
            },
        )
    }
}

/// The row of `span` in a chart that begins at `pivot` and stands for
/// `total` nanoseconds.
pub open spec fn bar_of(span: TraceSpan, pivot: u128, total: u128) -> Result<Bar, DrawError> {
    bar_at(span.id, span.start_time, (span.end_time - span.start_time) as u128, pivot, total)
}

/// The rows of the span `id` and of the spans below it: its own row, then
/// the rows of each of its children in turn. `depth` bounds the length of
/// a branch; among spans with different identities no branch is longer
/// than the list.
pub open spec fn layout(spans: Seq<TraceSpan>, id: u64, pivot: u128, total: u128, depth: nat) -> Result<
    Seq<Bar>,
    DrawError,
>
    decreases depth, 0nat,
{
    match bar_of(span_of(spans, id), pivot, total) {
        Err(fault) => Err(fault),
        Ok(bar) => if depth == 0 {
            Ok(seq![bar])
        } else {
            let children = children_of(spans, id);
            match layout_first(spans, children, children.len(), pivot, total, (depth - 1) as nat) {
                Err(fault) => Err(fault),
                Ok(below) => Ok(seq![bar] + below),
            }
        },
    }
}

/// The rows of the first `n` of the spans `ids`, one subtree after the
/// other, or the first fault met on the way.
pub open spec fn layout_first(
    spans: Seq<TraceSpan>,
    ids: Seq<u64>,
    n: nat,
    pivot: u128,
    total: u128,
    depth: nat,
) -> Result<Seq<Bar>, DrawError>
    decreases depth, n + 1,
{
    if n == 0 || n > ids.len() {
        Ok(Seq::empty())
    } else {
        match layout_first(spans, ids, (n - 1) as nat, pivot, total, depth) {
            Err(fault) => Err(fault),
            Ok(before) => match layout(spans, ids[n - 1], pivot, total, depth) {
                Err(fault) => Err(fault),
                Ok(rows) => Ok(before + rows),
            },
        }
    }
}

/// Why a list of spans is no trace that could be drawn: the fault of the
/// first span that has one, or else that there is no root.
pub open spec fn input_fault(spans: Seq<TraceSpan>) -> Option<DrawError> {
    match first_fault(spans) {
        Some(fault) => Some(fault),
        None => if root_place(spans) is None {
            Some(DrawError::NoRoot)
        } else {
            None
        },
    }
}

/// The chart of a list of spans: the rows of the root and of all that is
/// below it, or the reason why there is no chart.
pub open spec fn drawn(spans: Seq<TraceSpan>) -> Result<Seq<Bar>, DrawError> {
    match input_fault(spans) {
        Some(fault) => Err(fault),
        None => {
            let root = spans[root_place(spans).unwrap()];
            layout(
                spans,
                root.id,
                root.start_time,
                (root.end_time - root.start_time) as u128,
                spans.len(),
            )
        },
    }
}

/// Whether `rows` holds the rows `expected`, or `result` the fault.
pub open spec fn is_chart(result: Result<Vec<Bar>, DrawError>, expected: Result<Seq<Bar>, DrawError>) -> bool {
    match (result, expected) {
        (Ok(rows), Ok(bars)) => rows@ == bars,
        (Err(e), Err(f)) => e == f,
        _ => false,
    }
}

/// The children that a map from parents to children lists for `parent`.
pub open spec fn listed_children(children_map: Map<u64, Vec<u64>>, parent: u64) -> Seq<u64> {
    if children_map.contains_key(parent) {
        children_map[parent]@
    } else {
        Seq::empty()
    }
}

/// Whether the two maps hold what the list of spans says: for each span its
/// begin and duration, for each parent its children.
pub open spec fn tables_match(
    spans: Seq<TraceSpan>,
    spans_map: Map<u64, (u128, u128)>,
    children_map: Map<u64, Vec<u64>>,
) -> bool {
    &&& forall|id: u64| #[trigger] spans_map.contains_key(id) <==> has_span(spans, id)
    &&& forall|i: int|
        0 <= i < spans.len() ==> spans_map[(#[trigger] spans[i]).id] == (
            spans[i].start_time,
            (spans[i].end_time - spans[i].start_time) as u128,
        )
    &&& forall|parent: u64| #[trigger]
        listed_children(children_map, parent) == children_of(spans, parent)
}

/// A fault within a prefix is the first fault of the whole.
proof fn lemma_first_fault_stable(spans: Seq<TraceSpan>, k: int)
    requires
        0 <= k <= spans.len(),
        first_fault(spans.take(k)) is Some,
    ensures
        first_fault(spans) == first_fault(spans.take(k)),
    decreases spans.len() - k,
{
    if k == spans.len() {
        assert(spans.take(k) =~= spans);
    } else {
        assert(spans.take(k + 1).drop_last() =~= spans.take(k));
        lemma_first_fault_stable(spans, k + 1);
    }
}

/// Every child that is listed for a parent is a span of the list.
proof fn lemma_children_are_spans(spans: Seq<TraceSpan>, parent: u64)
    ensures
        forall|k: int|
            0 <= k < children_of(spans, parent).len() ==> has_span(
                spans,
                #[trigger] children_of(spans, parent)[k],
            ),
    decreases spans.len(),
{
    if spans.len() > 0 {
        let front = spans.drop_last();
        lemma_children_are_spans(front, parent);
        assert forall|k: int| 0 <= k < children_of(spans, parent).len() implies has_span(
            spans,
            #[trigger] children_of(spans, parent)[k],
        ) by {
            if k < children_of(front, parent).len() {
                let id = children_of(front, parent)[k];
                assert(has_span(front, id));
                let i = choose|i: int| 0 <= i < front.len() && (#[trigger] front[i]).id == id;
                assert(spans[i].id == id);
            } else {
                assert(spans[spans.len() - 1].id == children_of(spans, parent)[k]);
            }
        }
    }
}

/// Counts the cells of a part of the chart: of `part` nanoseconds, fewer
/// than the `total` that the width of the chart stands for. Steps through
/// the cells one by one, so that no product is formed that could overflow.
fn cells_of_part(part: u128, total: u128) -> (count: usize)
    requires
        part < total,
    ensures
        count == cells(part as int, total as int),
        count < BAR_LEN,
{
    let mut count: usize = 0;
    let mut rest: u128 = 0;
    let mut i: usize = 0;
    while i < BAR_LEN
        invariant
            i <= BAR_LEN,
            part < total,
            rest < total,
            count <= i,
            count * total + rest == i * part,
        decreases BAR_LEN - i,
    {
        let ghost before = (count as int, rest as int);
        if rest >= total - part {
            rest = rest - (total - part);
            count += 1;
        } else {
            rest += part;
        }
        assert(count * total + rest == (i + 1) * part) by (nonlinear_arith)
            requires
                before.0 * total + before.1 == i * part,
                (count == before.0 + 1 && rest == before.1 + part - total) || (count == before.0
                    && rest == before.1 + part),
        ;
        i += 1;
    }
    proof {
        lemma_fundamental_div_mod_converse(part * BAR_LEN, total as int, count as int, rest as int);
        assert(count < BAR_LEN) by (nonlinear_arith)
            requires
                count * total + rest == BAR_LEN * part,
                part < total,
                rest >= 0,
                count >= 0,
        ;
    }
    count
}

/// Counts the cells of `x` nanoseconds, or finds that they are more than a
/// row has.
fn scale(x: u128, total: u128) -> (count: Option<usize>)
    ensures
        match count {
            Some(c) => c == cells(x as int, total as int) && c <= BAR_LEN + 1 && (total == 0 ==> x == 0),
            None => if total == 0 {
                x != 0
            } else {
                cells(x as int, total as int) > BAR_LEN + 1
            },
        },
{
    if total == 0 {
        if x == 0 {
            Some(0)
        } else {
            None
        }
    } else {
        let wholes = x / total;
        let part = x % total;
        proof {
            lemma_fundamental_div_mod(x as int, total as int);
        }
        if wholes >= 2 {
            proof {
                assert(2 * BAR_LEN * total <= x * BAR_LEN) by (nonlinear_arith)
                    requires
                        x == total * wholes + part,
                        wholes >= 2,
                        part >= 0,
                        total > 0,
                ;
                lemma_div_by_multiple(2 * BAR_LEN as int, total as int);
                lemma_div_is_ordered(2 * BAR_LEN * total, x * BAR_LEN, total as int);
            }
            None
        } else {
            let count = cells_of_part(part, total) + if wholes == 1 {
                BAR_LEN
            } else {
                0
            };
            proof {
                lemma_hoist_over_denominator(part * BAR_LEN, wholes * BAR_LEN, total as nat);
                assert(part * BAR_LEN + (wholes * BAR_LEN) * total == x * BAR_LEN) by (nonlinear_arith)
                    requires
                        x == total * wholes + part,
                ;
            }
            if count <= BAR_LEN + 1 {
                Some(count)
            } else {
                None
            }
        }
    }
}

/// Computes [`bar_at`].
fn make_bar(id: u64, start: u128, duration: u128, pivot: u128, total: u128) -> (result: Result<
    Bar,
    DrawError,
>)
    ensures
        result == bar_at(id, start, duration, pivot, total),
{
    if start < pivot {
        return Err(DrawError::OutsideRoot(id));
    }
    let leading = match scale(start - pivot, total) {
        Some(n) => n,
        None => {
            return Err(DrawError::OutsideRoot(id));
        },
    };
    let bar = match scale(duration, total) {
        Some(n) => n,
        None => {
            return Err(DrawError::OutsideRoot(id));
        },
    };
    if leading + bar > BAR_LEN {
        return Err(DrawError::OutsideRoot(id));
    }
    Ok(Bar { id, leading, bar, trailing: BAR_LEN + 1 - bar - leading, duration })
}

/// Draws the span `cur_id` and all that is below it: appends its row to
/// `rows`, then the rows of its children, each with what is below it.
/// Stops at the first span that does not fit on the chart.
#[verifier::loop_isolation(false)]
fn draw_rec(
    cur_id: u64,
    pivot: u128,
    total: u128,
    children_map: &HashMap<u64, Vec<u64>>,
    spans_map: &HashMap<u64, (u128, u128)>,
    depth: usize,
    rows: &mut Vec<Bar>,
    Ghost(spans): Ghost<Seq<TraceSpan>>,
) -> (result: Result<(), DrawError>)
    requires
        first_fault(spans) is None,
        tables_match(spans, spans_map@, children_map@),
        has_span(spans, cur_id),
    ensures
        match layout(spans, cur_id, pivot, total, depth as nat) {
            Ok(bars) => result is Ok && final(rows)@ == old(rows)@ + bars,
            Err(fault) => result == Err::<(), DrawError>(fault),
        },
    decreases depth,
{
    proof {
        lemma_no_fault(spans);
    }
    let (start, duration) = *spans_map.get(&cur_id).unwrap();
    let bar = match make_bar(cur_id, start, duration, pivot, total) {
        Ok(bar) => bar,
        Err(fault) => {
            return Err(fault);
        },
    };
    rows.push(bar);
    if depth == 0 {
        return Ok(());
    }
    if let Some(children) = children_map.get(&cur_id) {
        let ghost ids = children_of(spans, cur_id);
        assert(children@ == listed_children(children_map@, cur_id));
        let mut k: usize = 0;
        while k < children.len()
            invariant
                k <= children.len(),
                layout_first(spans, ids, k as nat, pivot, total, (depth - 1) as nat) matches Ok(below)
                    && rows@ == old(rows)@ + seq![bar] + below,
            decreases children.len() - k,
        {
            proof {
                lemma_children_are_spans(spans, cur_id);
            }
            let ghost before = rows@;
            match draw_rec(children[k], pivot, total, children_map, spans_map, depth - 1, rows, Ghost(spans)) {
                Ok(()) => {},
                Err(fault) => {
                    proof {
                        lemma_layout_fault_stable(
                            spans,
                            ids,
                            (k + 1) as nat,
                            pivot,
                            total,
                            (depth - 1) as nat,
                        );
                    }
                    return Err(fault);
                },
            }
            proof {
                let below = layout_first(spans, ids, k as nat, pivot, total, (depth - 1) as nat)->Ok_0;
                let next = layout(spans, ids[k as int], pivot, total, (depth - 1) as nat)->Ok_0;
                assert(rows@ =~= old(rows)@ + seq![bar] + (below + next));
            }
            k += 1;
        }
        assert(rows@ =~= old(rows)@ + (seq![bar] + layout_first(
            spans,
            ids,
            ids.len(),
            pivot,
            total,
            (depth - 1) as nat,
        )->Ok_0));
    } else {
        assert(listed_children(children_map@, cur_id).len() == 0);
        assert(rows@ =~= old(rows)@ + (seq![bar] + Seq::<Bar>::empty()));
    }
    Ok(())
}

/// A fault among the first `n` subtrees is the fault of them all.
proof fn lemma_layout_fault_stable(
    spans: Seq<TraceSpan>,
    ids: Seq<u64>,
    n: nat,
    pivot: u128,
    total: u128,
    depth: nat,
)
    requires
        n <= ids.len(),
        layout_first(spans, ids, n, pivot, total, depth) is Err,
    ensures
        layout_first(spans, ids, ids.len(), pivot, total, depth) == layout_first(
            spans,
            ids,
            n,
            pivot,
            total,
            depth,
        ),
    decreases ids.len() - n,
{
    if n < ids.len() {
        lemma_layout_fault_stable(spans, ids, n + 1, pivot, total, depth);
    }
}

/// Without a fault every span ends no earlier than it begins and no two
/// spans share an identity.
proof fn lemma_no_fault(spans: Seq<TraceSpan>)
    requires
        first_fault(spans) is None,
    ensures
        forall|i: int| 0 <= i < spans.len() ==> (#[trigger] spans[i]).start_time <= spans[i].end_time,
        forall|i: int, j: int|
            0 <= i < j < spans.len() ==> (#[trigger] spans[i]).id != (#[trigger] spans[j]).id,
    decreases spans.len(),
{
    if spans.len() > 0 {
        let front = spans.drop_last();
        lemma_no_fault(front);
        assert(!repeats_last(spans));
        assert forall|i: int| 0 <= i < spans.len() implies (#[trigger] spans[i]).start_time
            <= spans[i].end_time by {
            if i < spans.len() - 1 {
                assert(front[i].start_time <= front[i].end_time);
            }
        }
        assert forall|i: int, j: int| 0 <= i < j < spans.len() implies (#[trigger] spans[i]).id != (
        #[trigger] spans[j]).id by {
            if j < spans.len() - 1 {
                assert(front[i].id != front[j].id);
            }
        }
    }
}

/// A span of a list that grew by one is the new span or one of the old.
proof fn lemma_has_span_step(spans: Seq<TraceSpan>, k: int, id: u64)
    requires
        0 <= k < spans.len(),
    ensures
        has_span(spans.take(k + 1), id) <==> has_span(spans.take(k), id) || spans[k].id == id,
{
    let longer = spans.take(k + 1);
    let shorter = spans.take(k);
    if has_span(longer, id) {
        let i = choose|i: int| 0 <= i < longer.len() && (#[trigger] longer[i]).id == id;
        if i < k {
            assert(shorter[i].id == id);
        }
    }
    if has_span(shorter, id) {
        let i = choose|i: int| 0 <= i < shorter.len() && (#[trigger] shorter[i]).id == id;
        assert(longer[i].id == id);
    }
    if spans[k].id == id {
        assert(longer[k].id == id);
    }
}

/// Looks for what keeps a list of spans from being drawn: a span that
/// ends before it begins or repeats an identity, the first of them in the
/// order of the list, or else the lack of a root.
pub fn find_fault(spans: &Vec<TraceSpan>) -> (fault: Option<DrawError>)
    ensures
        fault == input_fault(spans@),
{
    let mut seen: HashSet<u64> = HashSet::new();
    let mut rooted = false;
    let mut i: usize = 0;
    while i < spans.len()
        invariant
            i <= spans.len(),
            first_fault(spans@.take(i as int)) is None,
            forall|id: u64| seen@.contains(id) <==> has_span(spans@.take(i as int), id),
            rooted == (root_place(spans@.take(i as int)) is Some),
        decreases spans.len() - i,
    {
        let span = spans[i];
        let ghost shorter = spans@.take(i as int);
        let ghost longer = spans@.take(i + 1);
        assert(longer.drop_last() =~= shorter);
        assert(longer.last() == span);
        if span.end_time < span.start_time {
            proof {
                lemma_first_fault_stable(spans@, i + 1);
            }
            return Some(DrawError::EndsBeforeStart(span.id));
        }
        if !seen.insert(span.id) {
            proof {
                let j = choose|j: int| 0 <= j < shorter.len() && (#[trigger] shorter[j]).id == span.id;
                assert(longer[j].id == longer.last().id);
                lemma_first_fault_stable(spans@, i + 1);
            }
            return Some(DrawError::DuplicatedId(span.id));
        }
        proof {
            if repeats_last(longer) {
                let j = choose|j: int| 0 <= j < longer.len() - 1 && (#[trigger] longer[j]).id == longer.last().id;
                assert(shorter[j].id == span.id);
            }
            assert forall|id: u64| seen@.contains(id) <==> has_span(longer, id) by {
                lemma_has_span_step(spans@, i as int, id);
            }
        }
        if span.parent.is_none() {
            rooted = true;
        }
        i += 1;
    }
    assert(spans@.take(i as int) =~= spans@);
    if rooted {
        None
    } else {
        Some(DrawError::NoRoot)
    }
}

/// Lays out the chart of a finished trace, as it is written to standard
/// output: the row of the root, which is the last span without a parent,
/// and below each row the rows of the span's children in the order of the
/// list. Spans that do not hang from the root have no row.
///
/// The list must be one in which [`find_fault`] finds nothing. Fails on
/// the first span whose row does not lie within the chart.
#[verifier::loop_isolation(false)]
pub fn draw_stdout(spans: Vec<TraceSpan>) -> (chart: Result<Vec<Bar>, DrawError>)
    requires
        input_fault(spans@) is None,
    ensures
        is_chart(chart, drawn(spans@)),
        chart matches Err(fault) ==> fault matches DrawError::OutsideRoot(_),
{
    let mut children: HashMap<u64, Vec<u64>> = HashMap::new();
    let mut spans_map: HashMap<u64, (u128, u128)> = HashMap::new();
    let mut root: Option<u64> = None;
    proof {
        lemma_no_fault(spans@);
    }
    let mut i: usize = 0;
    while i < spans.len()
        invariant
            i <= spans.len(),
            tables_match(spans@.take(i as int), spans_map@, children@),
            root == match root_place(spans@.take(i as int)) {
                Some(r) => Some(spans[r].id),
                None => None,
            },
        decreases spans.len() - i,
    {
        let span = spans[i];
        let ghost shorter = spans@.take(i as int);
        let ghost longer = spans@.take(i + 1);
        let ghost old_spans_map = spans_map@;
        let ghost old_children = children@;
        assert(longer.drop_last() =~= shorter);
        assert(longer.last() == span);
        let start = span.start_time;
        let end = span.end_time;
        spans_map.insert(span.id, (start, end - start));

        if let Some(parent) = span.parent {
            let mut list = match children.remove(&parent) {
                Some(list) => list,
                None => Vec::new(),
            };
            list.push(span.id);
            children.insert(parent, list);
        } else {
            root = Some(span.id);
        }
        proof {
            assert forall|p: u64| #[trigger] listed_children(children@, p) == children_of(longer, p) by {
                assert(listed_children(old_children, p) == children_of(shorter, p));
            }
            assert forall|id: u64| #[trigger] spans_map@.contains_key(id) <==> has_span(longer, id) by {
                lemma_has_span_step(spans@, i as int, id);
                assert(old_spans_map.contains_key(id) <==> has_span(shorter, id));
            }
            assert forall|j: int| 0 <= j < longer.len() implies spans_map@[(#[trigger] longer[j]).id] == (
                longer[j].start_time,
                (longer[j].end_time - longer[j].start_time) as u128,
            ) by {
                if j < i {
                    assert(spans[j].id != spans[i as int].id);
                    assert(old_spans_map[shorter[j].id] == (
                        shorter[j].start_time,
                        (shorter[j].end_time - shorter[j].start_time) as u128,
                    ));
                }
            }
        }
        i += 1;
    }
    assert(spans@.take(i as int) =~= spans@);
    proof {
        lemma_root_place(spans@);
    }

    let root = root.unwrap();
    let (pivot, total) = *spans_map.get(&root).unwrap();

    let mut rows: Vec<Bar> = Vec::new();
    match draw_rec(root, pivot, total, &children, &spans_map, spans.len(), &mut rows, Ghost(spans@)) {
        Ok(()) => {
            assert(rows@ =~= layout(spans@, root, pivot, total, spans@.len())->Ok_0);
            Ok(rows)
        },
        Err(fault) => {
            proof {
                lemma_layout_faults(spans@, root, pivot, total, spans@.len());
            }
            Err(fault)
        },
    }
}

/// The only fault of a layout is a span outside the chart.
proof fn lemma_layout_faults(spans: Seq<TraceSpan>, id: u64, pivot: u128, total: u128, depth: nat)
    ensures
        layout(spans, id, pivot, total, depth) matches Err(fault) ==> fault matches DrawError::OutsideRoot(_),
    decreases depth, 0nat,
{
    if depth > 0 {
        let children = children_of(spans, id);
        lemma_layout_first_faults(spans, children, children.len(), pivot, total, (depth - 1) as nat);
    }
}

/// The same for the subtrees of the first `n` of `ids`.
proof fn lemma_layout_first_faults(
    spans: Seq<TraceSpan>,
    ids: Seq<u64>,
    n: nat,
    pivot: u128,
    total: u128,
    depth: nat,
)
    ensures
        layout_first(spans, ids, n, pivot, total, depth) matches Err(fault) ==> fault matches DrawError::OutsideRoot(
            _,
        ),
    decreases depth, n + 1,
{
    if n > 0 && n <= ids.len() {
        lemma_layout_first_faults(spans, ids, (n - 1) as nat, pivot, total, depth);
        lemma_layout_faults(spans, ids[n - 1], pivot, total, depth);
    }
}

/// The place that `root_place` names is a place of the list.
proof fn lemma_root_place(spans: Seq<TraceSpan>)
    ensures
        root_place(spans) matches Some(r) ==> 0 <= r < spans.len() && spans[r].parent is None,
    decreases spans.len(),
{
    if spans.len() > 0 {
        lemma_root_place(spans.drop_last());
    }
}

/// Whether `path` is a branch of the tree: it begins at a span without a
/// parent, and each span on it is the parent of the next.
pub open spec fn is_branch(spans: Seq<TraceSpan>, path: Seq<u64>) -> bool {
    &&& path.len() > 0
    &&& forall|k: int| 0 <= k < path.len() ==> has_span(spans, #[trigger] path[k])
    &&& span_of(spans, path[0]).parent is None
    &&& forall|k: int|
        0 < k < path.len() ==> span_of(spans, #[trigger] path[k]).parent == Some(path[k - 1])
}

/// A child that is listed for a parent is a span of the list, and that
/// parent is its parent.
proof fn lemma_child_names_parent(spans: Seq<TraceSpan>, parent: u64, k: int)
    requires
        first_fault(spans) is None,
        0 <= k < children_of(spans, parent).len(),
    ensures
        has_span(spans, children_of(spans, parent)[k]),
        span_of(spans, children_of(spans, parent)[k]).parent == Some(parent),
    decreases spans.len(),
{
    let child = children_of(spans, parent)[k];
    let front = spans.drop_last();
    lemma_no_fault(spans);
    if k < children_of(front, parent).len() {
        lemma_child_names_parent(front, parent, k);
        let i = choose|i: int| 0 <= i < front.len() && (#[trigger] front[i]).id == child;
        assert(spans[i].id == child);
        let j = choose|j: int| 0 <= j < spans.len() && (#[trigger] spans[j]).id == child;
        assert(i == j);
    } else {
        let last = spans.len() - 1;
        assert(spans[last].id == child);
        let j = choose|j: int| 0 <= j < spans.len() && (#[trigger] spans[j]).id == child;
        assert(j == last);
    }
}

/// No span occurs twice on a branch.
proof fn lemma_branch_has_no_loop(spans: Seq<TraceSpan>, path: Seq<u64>, i: int, j: int)
    requires
        is_branch(spans, path),
        0 <= i < j < path.len(),
    ensures
        path[i] != path[j],
    decreases i,
{
    if path[i] == path[j] {
        assert(span_of(spans, path[j]).parent == Some(path[j - 1]));
        if i > 0 {
            assert(span_of(spans, path[i]).parent == Some(path[i - 1]));
            lemma_branch_has_no_loop(spans, path, i - 1, j - 1);
        }
    }
}

/// A branch is no longer than the list.
proof fn lemma_branch_is_short(spans: Seq<TraceSpan>, path: Seq<u64>)
    requires
        is_branch(spans, path),
    ensures
        path.len() <= spans.len(),
{
    let ids = spans.map_values(|s: TraceSpan| s.id);
    assert forall|i: int, j: int| 0 <= i < path.len() && 0 <= j < path.len() && i != j implies path[i]
        != path[j] by {
        if i < j {
            lemma_branch_has_no_loop(spans, path, i, j);
        } else {
            lemma_branch_has_no_loop(spans, path, j, i);
        }
    }
    path.unique_seq_to_set();
    ids.lemma_cardinality_of_set();
    assert forall|id: u64| path.to_set().contains(id) implies ids.to_set().contains(id) by {
        let k = choose|k: int| 0 <= k < path.len() && path[k] == id;
        assert(has_span(spans, path[k]));
        let i = choose|i: int| 0 <= i < spans.len() && (#[trigger] spans[i]).id == id;
        assert(ids[i] == id);
    }
    vstd::seq_lib::seq_to_set_is_finite(ids);
    vstd::set_lib::lemma_len_subset(path.to_set(), ids.to_set());
}

/// A branch with a child of its last span at its end is a branch.
proof fn lemma_branch_grows(spans: Seq<TraceSpan>, path: Seq<u64>, k: int)
    requires
        first_fault(spans) is None,
        is_branch(spans, path),
        0 <= k < children_of(spans, path.last()).len(),
    ensures
        is_branch(spans, path.push(children_of(spans, path.last())[k])),
{
    lemma_child_names_parent(spans, path.last(), k);
    let longer = path.push(children_of(spans, path.last())[k]);
    assert(longer[0] == path[0]);
    assert forall|i: int| 0 <= i < longer.len() implies has_span(spans, #[trigger] longer[i]) by {
        if i < path.len() {
            assert(longer[i] == path[i]);
        }
    }
    assert forall|i: int| 0 < i < longer.len() implies span_of(spans, #[trigger] longer[i]).parent == Some(
        longer[i - 1],
    ) by {
        if i < path.len() {
            assert(longer[i] == path[i]);
        }
    }
}

/// Below the end of a branch, a depth that reaches to the end of the list
/// gives the rows that any greater depth gives.
proof fn lemma_depth_reaches(
    spans: Seq<TraceSpan>,
    path: Seq<u64>,
    pivot: u128,
    total: u128,
    d1: nat,
    d2: nat,
)
    requires
        first_fault(spans) is None,
        is_branch(spans, path),
        path.len() + d1 >= spans.len(),
        path.len() + d2 >= spans.len(),
    ensures
        layout(spans, path.last(), pivot, total, d1) == layout(spans, path.last(), pivot, total, d2),
    decreases spans.len() - path.len(), 1nat, 0nat,
{
    lemma_branch_is_short(spans, path);
    let children = children_of(spans, path.last());
    if children.len() == 0 {
        let row = bar_of(span_of(spans, path.last()), pivot, total);
        if row is Ok {
            let bar = row->Ok_0;
            assert(seq![bar] + Seq::<Bar>::empty() =~= seq![bar]);
        }
    } else {
        lemma_branch_grows(spans, path, 0);
        let longer = path.push(children[0]);
        lemma_branch_is_short(spans, longer);
        lemma_depth_reaches_first(
            spans,
            path,
            children.len(),
            pivot,
            total,
            (d1 - 1) as nat,
            (d2 - 1) as nat,
        );
    }
}

/// The same for the first `n` children of the end of a branch.
proof fn lemma_depth_reaches_first(
    spans: Seq<TraceSpan>,
    path: Seq<u64>,
    n: nat,
    pivot: u128,
    total: u128,
    d1: nat,
    d2: nat,
)
    requires
        first_fault(spans) is None,
        is_branch(spans, path),
        n <= children_of(spans, path.last()).len(),
        path.len() < spans.len(),
        path.len() + 1 + d1 >= spans.len(),
        path.len() + 1 + d2 >= spans.len(),
    ensures
        layout_first(spans, children_of(spans, path.last()), n, pivot, total, d1) == layout_first(
            spans,
            children_of(spans, path.last()),
            n,
            pivot,
            total,
            d2,
        ),
    decreases spans.len() - path.len(), 0nat, n,
{
    if n > 0 {
        let children = children_of(spans, path.last());
        lemma_depth_reaches_first(spans, path, (n - 1) as nat, pivot, total, d1, d2);
        lemma_branch_grows(spans, path, n - 1);
        let longer = path.push(children[n - 1]);
        lemma_depth_reaches(spans, longer, pivot, total, d1, d2);
    }
}

/// The chart is the whole tree below the root. The depth to which
/// [`drawn`] descends, the length of the list, cuts no branch short: any
/// greater depth gives the same rows.
pub proof fn law_chart_is_whole_tree(spans: Seq<TraceSpan>, pivot: u128, total: u128, depth: nat)
    requires
        first_fault(spans) is None,
        root_place(spans) is Some,
        depth >= spans.len(),
    ensures
        layout(spans, spans[root_place(spans).unwrap()].id, pivot, total, depth) == layout(
            spans,
            spans[root_place(spans).unwrap()].id,
            pivot,
            total,
            spans.len(),
        ),
{
    let r = root_place(spans).unwrap();
    lemma_root_place(spans);
    lemma_no_fault(spans);
    let path = seq![spans[r].id];
    assert(has_span(spans, spans[r].id));
    let i = choose|i: int| 0 <= i < spans.len() && (#[trigger] spans[i]).id == spans[r].id;
    assert(i == r);
    assert(path[0] == spans[r].id);
    assert(is_branch(spans, path));
    lemma_depth_reaches(spans, path, pivot, total, depth, spans.len());
}

/// A span that lies within the root has a row: its blanks and its bar
/// together are no wider than the chart, so that at least one blank
/// follows the bar.
pub proof fn law_span_within_root_fits(id: u64, start: u128, duration: u128, pivot: u128, total: u128)
    requires
        pivot <= start,
        start + duration <= pivot + total,
    ensures
        bar_at(id, start, duration, pivot, total) matches Ok(bar) && {
            &&& bar.id == id
            &&& bar.duration == duration
            &&& bar.leading + bar.bar <= BAR_LEN
            &&& bar.trailing == BAR_LEN + 1 - bar.leading - bar.bar
            &&& bar.trailing >= 1
        },
{
    let offset = start - pivot;
    if total > 0 {
        lemma_fundamental_div_mod(offset * BAR_LEN, total as int);
        lemma_fundamental_div_mod(duration * BAR_LEN, total as int);
        let a = offset * BAR_LEN / (total as int);
        let b = duration * BAR_LEN / (total as int);
        let ra = (offset * BAR_LEN) % (total as int);
        let rb = (duration * BAR_LEN) % (total as int);
        assert(0 <= a && 0 <= b && a + b <= BAR_LEN) by (nonlinear_arith)
            requires
                offset * BAR_LEN == total * a + ra,
                duration * BAR_LEN == total * b + rb,
                0 <= ra < total,
                0 <= rb < total,
                0 <= offset,
                0 <= duration,
                offset + duration <= total,
                BAR_LEN == 70,
        ;
    }
}

/// The whole root is the whole chart: its row has no blank before the bar
/// and a bar of the full width, if the root lasts at all.
pub proof fn law_root_fills_chart(id: u64, start: u128, duration: u128)
    requires
        duration > 0,
    ensures
        bar_at(id, start, duration, start, duration) == Ok::<Bar, DrawError>(
            Bar { id, leading: 0, bar: BAR_LEN, trailing: 1, duration },
        ),
{
    lemma_div_by_multiple(BAR_LEN as int, duration as int);
    assert(duration * BAR_LEN == BAR_LEN * duration) by (nonlinear_arith);
}

/// Whether `spans` holds the root `a` and its one child `b`, a span that
/// lies within the root, and nothing else.
pub open spec fn is_root_with_child(spans: Seq<TraceSpan>, a: TraceSpan, b: TraceSpan) -> bool {
    &&& spans == seq![a, b] || spans == seq![b, a]
    &&& a.parent is None
    &&& b.parent == Some(a.id)
    &&& a.id != b.id
    &&& a.start_time < a.end_time
    &&& a.start_time <= b.start_time <= b.end_time <= a.end_time
}

/// A root with one span nested in it is drawn in two rows, whichever of
/// the two the list names first: the root's row, a bar of the full width,
/// and below it the row of the nested span, whose blanks and bar are no
/// wider than the chart.
pub proof fn law_root_with_child_is_drawn(spans: Seq<TraceSpan>, a: TraceSpan, b: TraceSpan)
    requires
        is_root_with_child(spans, a, b),
    ensures
        input_fault(spans) is None,
        drawn(spans) matches Ok(rows) && {
            &&& rows.len() == 2
            &&& rows[0] == Bar {
                id: a.id,
                leading: 0,
                bar: BAR_LEN,
                trailing: 1,
                duration: (a.end_time - a.start_time) as u128,
            }
            &&& rows[1].id == b.id
            &&& rows[1].duration == b.end_time - b.start_time
            &&& rows[1].leading + rows[1].bar <= BAR_LEN
            &&& rows[1].trailing >= 1
        },
{
    let pivot = a.start_time;
    let total = (a.end_time - a.start_time) as u128;
    let front = spans.drop_last();
    assert(front.len() == 1);
    assert(front.drop_last().len() == 0);
    reveal_with_fuel(first_fault, 3);
    reveal_with_fuel(root_place, 3);
    reveal_with_fuel(children_of, 3);
    assert(first_fault(front) is None);
    assert(!repeats_last(spans));
    assert(first_fault(spans) is None);
    assert(root_place(spans) is Some);
    let r = root_place(spans).unwrap();
    assert(spans[r] == a);

    assert(has_span(spans, a.id)) by {
        assert(spans[r].id == a.id);
    }
    assert(span_of(spans, a.id) == a);
    let at_b = if spans[0] == b {
        0int
    } else {
        1int
    };
    assert(spans[at_b] == b);
    assert(span_of(spans, b.id) == b) by {
        assert(spans[at_b].id == b.id);
    }
    assert(children_of(spans, a.id) =~= seq![b.id]);
    assert(children_of(spans, b.id) =~= Seq::<u64>::empty());

    law_root_fills_chart(a.id, a.start_time, total);
    law_span_within_root_fits(b.id, b.start_time, (b.end_time - b.start_time) as u128, pivot, total);
    let bar_a = bar_of(a, pivot, total)->Ok_0;
    let bar_b = bar_of(b, pivot, total)->Ok_0;

    reveal_with_fuel(layout, 3);
    reveal_with_fuel(layout_first, 3);
    let none = Seq::<u64>::empty();
    assert(layout_first(spans, none, 0, pivot, total, 0) == Ok::<Seq<Bar>, DrawError>(Seq::empty()));
    let below_b = layout(spans, b.id, pivot, total, 1);
    assert(below_b == Ok::<Seq<Bar>, DrawError>(seq![bar_b] + Seq::<Bar>::empty()));
    let kids = seq![b.id];
    assert(layout_first(spans, kids, 0, pivot, total, 1) == Ok::<Seq<Bar>, DrawError>(Seq::empty()));
    assert(layout_first(spans, kids, 1, pivot, total, 1) == Ok::<Seq<Bar>, DrawError>(
        Seq::<Bar>::empty() + (seq![bar_b] + Seq::<Bar>::empty()),
    ));
    let rows = layout(spans, a.id, pivot, total, 2);
    assert(rows == Ok::<Seq<Bar>, DrawError>(
        seq![bar_a] + (Seq::<Bar>::empty() + (seq![bar_b] + Seq::<Bar>::empty())),
    ));
    assert(drawn(spans) == rows);
    assert(rows->Ok_0 =~= seq![bar_a, bar_b]);
}

} // verus!
