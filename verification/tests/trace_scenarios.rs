use minitrace::{
    merge, new_async_handle, new_async_handle_at, new_property, new_span, new_span_at, start_trace,
    start_trace_at, AsyncGuard, Span, SpanSet, State, TraceError, TraceLocal, TraceSpan, NO_PARENT,
};

const ID_1_0: u64 = (1u64 << 32) + 1;
const ID_1_1: u64 = (1u64 << 32) + 2;
const ID_1_2: u64 = (1u64 << 32) + 3;
const ID_2_0: u64 = (2u64 << 32) + 1;
const ID_2_1: u64 = (2u64 << 32) + 2;

fn span(id: u64, state: State, parent_id: u64, begin_ticks: u64, elapsed_ticks: u64, event: u32) -> Span {
    Span { id, state, parent_id, begin_ticks, elapsed_ticks, event }
}

#[test]
fn root_with_one_nested_span_gives_two_linked_spans() {
    let mut tl = TraceLocal::new(1);
    let (root, collector) = start_trace_at(&mut tl, 0, 1_000, 5_000_000).unwrap();
    let inner = new_span_at(&mut tl, 1, 1_000).unwrap();
    inner.exit_at(&mut tl, 1_000);
    let out = root.exit_at(&mut tl, 1_500);
    assert!(out.send());

    let trace = collector.finish().unwrap();
    assert_eq!(trace.spans.len(), 2);
    assert_eq!(trace.root_id, ID_1_0);
    let b = trace.spans[0];
    let a = trace.spans[1];
    assert_eq!(
        a,
        TraceSpan {
            id: ID_1_0,
            parent: None,
            state: State::Normal,
            event: 0,
            start_time: 5_000_000,
            end_time: 5_000_500,
        }
    );
    assert_eq!(
        b,
        TraceSpan {
            id: ID_1_1,
            parent: Some(ID_1_0),
            state: State::Normal,
            event: 1,
            start_time: 5_000_000,
            end_time: 5_000_000,
        }
    );
    assert!(b.start_time >= a.start_time);
    assert!(b.end_time <= a.end_time);
}

#[test]
fn root_with_one_nested_span_on_the_real_clock() {
    let mut tl = TraceLocal::new(1);
    let (root, collector) = start_trace(&mut tl, 0u32, 1_700_000_000_000_000_000).unwrap();
    let inner = new_span(&mut tl, 1u32).unwrap();
    assert!(inner.can_exit(&tl));
    let left_inner = inner.exit(&mut tl);
    assert!(root.can_exit(&tl));
    let left_root = root.exit(&mut tl);
    assert!(left_inner <= left_root);

    let trace = collector.finish().unwrap();
    assert_eq!(trace.spans.len(), 2);
    let b = trace.spans[0];
    let a = trace.spans[1];
    assert_eq!(a.parent, None);
    assert_eq!(a.event, 0);
    assert_eq!(a.id, trace.root_id);
    assert_eq!(b.parent, Some(a.id));
    assert_eq!(b.event, 1);
    assert!(b.start_time >= a.start_time);
    assert!(b.end_time <= a.end_time);
    // The root begins at the wall clock reading that was handed in.
    assert_eq!(a.start_time, 1_700_000_000_000_000_000);
}

#[test]
fn handle_resumed_on_another_context_shows_the_wait() {
    let mut t1 = TraceLocal::new(1);
    let mut t2 = TraceLocal::new(2);
    let (root, collector) = start_trace_at(&mut t1, 0, 1_000_000, 7_000_000_000).unwrap();
    let mut handle = new_async_handle_at(&t1, 2_000_000);
    assert!(handle.is_active());
    assert_eq!(handle.next_pending_parent_id(), Some(ID_1_0));
    assert_eq!(handle.begin_ticks(), Some(2_000_000));

    // 50 ms later the second context picks the work up.
    let guard = handle.start_trace_at(7, &mut t2, 52_000_000).unwrap();
    assert!(matches!(guard, AsyncGuard::AsyncScopeGuard(_)));
    assert_eq!(t2.depth(), 1);
    assert_eq!(t2.buffered(), 1);
    let out = guard.exit_at(&mut t2, 53_000_000).unwrap();
    assert_eq!(
        out.batch().spans,
        vec![
            span(ID_2_0, State::Pending, ID_1_0, 2_000_000, 50_000_000, 7),
            span(ID_2_1, State::Normal, ID_2_0, 52_000_000, 1_000_000, 7),
        ]
    );
    assert!(out.send());
    assert!(!t2.is_active());
    assert_eq!(t2.buffered(), 0);
    assert_eq!(handle.next_pending_parent_id(), Some(ID_2_1));
    assert_eq!(handle.begin_ticks(), Some(53_000_000));

    assert!(root.exit_at(&mut t1, 60_000_000).send());
    let trace = collector.finish().unwrap();
    assert_eq!(trace.spans.len(), 3);
    assert_eq!(trace.root_id, ID_1_0);
    let pending = trace.spans.iter().find(|s| s.state == State::Pending).unwrap();
    let resumed = trace.spans.iter().find(|s| s.id == ID_2_1).unwrap();
    let root = trace.spans.iter().find(|s| s.id == ID_1_0).unwrap();
    assert_eq!(root.parent, None);
    assert_eq!(pending.parent, Some(ID_1_0));
    assert_eq!(pending.end_time - pending.start_time, 50_000_000);
    assert_eq!(pending.start_time, 7_001_000_000);
    assert_eq!(resumed.parent, Some(pending.id));
    assert_eq!(resumed.state, State::Normal);
    assert_eq!(resumed.start_time, pending.end_time);
    assert_eq!(resumed.end_time, 7_052_000_000);
}

#[test]
fn handle_resumed_on_the_real_clock() {
    let mut t1 = TraceLocal::new(1);
    let mut t2 = TraceLocal::new(2);
    let (root, collector) = start_trace(&mut t1, 0u32, 1_700_000_000_000_000_000).unwrap();
    let mut handle = new_async_handle(&t1);
    let captured_at = handle.begin_ticks().unwrap();
    let guard = handle.start_trace(3u32, &mut t2).unwrap();
    assert!(guard.can_exit(&t2));
    let released_at = guard.exit(&mut t2);
    assert!(captured_at <= released_at);
    assert_eq!(handle.begin_ticks(), Some(released_at));
    root.exit(&mut t1);

    let trace = collector.finish().unwrap();
    assert_eq!(trace.spans.len(), 3);
    let pending = trace.spans.iter().find(|s| s.state == State::Pending).unwrap();
    let resumed = trace.spans.iter().find(|s| s.parent == Some(pending.id)).unwrap();
    assert_eq!(pending.parent, Some(trace.root_id));
    assert_eq!(pending.event, 3);
    assert_eq!(resumed.state, State::Normal);
    assert!(pending.end_time >= pending.start_time);
    assert_eq!(resumed.start_time, pending.end_time);
}

#[test]
fn handle_resumed_again_after_release_measures_the_next_wait() {
    let mut t1 = TraceLocal::new(1);
    let mut t2 = TraceLocal::new(2);
    let (root, collector) = start_trace_at(&mut t1, 0, 100, 0).unwrap();
    let mut handle = new_async_handle_at(&t1, 110);
    let first = handle.start_trace_at(5, &mut t2, 150).unwrap();
    first.exit_at(&mut t2, 160).unwrap().send();
    let second = handle.start_trace_at(6, &mut t2, 200).unwrap();
    let out = second.exit_at(&mut t2, 230).unwrap();
    let pending_id = (2u64 << 32) + 3;
    let resumed_id = (2u64 << 32) + 4;
    assert_eq!(
        out.batch().spans,
        vec![
            span(pending_id, State::Pending, ID_2_1, 160, 40, 6),
            span(resumed_id, State::Normal, pending_id, 200, 30, 6),
        ]
    );
    out.send();
    root.exit_at(&mut t1, 300).send();
    let trace = collector.finish().unwrap();
    assert_eq!(trace.spans.len(), 5);
}

#[test]
fn nothing_is_recorded_outside_a_trace() {
    let mut tl = TraceLocal::new(9);
    for event in 0..100u32 {
        assert!(new_span(&mut tl, event).is_none());
        assert!(new_span_at(&mut tl, event, 17).is_none());
        let mut handle = new_async_handle(&tl);
        assert!(!handle.is_active());
        assert_eq!(handle.begin_ticks(), None);
        assert_eq!(handle.next_pending_parent_id(), None);
        assert!(handle.start_trace(event, &mut tl).is_none());
        assert!(handle.start_trace_at(event, &mut tl, 5).is_none());
        let mut handle = new_async_handle_at(&tl, 3);
        assert!(handle.start_trace_at(event, &mut tl, 5).is_none());
        new_property(&mut tl, b"key:value");
    }
    assert!(!tl.is_active());
    assert_eq!(tl.depth(), 0);
    assert_eq!(tl.buffered(), 0);
    assert_eq!(tl.current_span_id(), None);
    let taken = tl.take();
    assert!(taken.spans.is_empty());
    assert!(taken.properties.is_empty());

    // The context is as good as new: the first span of a trace is numbered first.
    let (root, _collector) = start_trace_at(&mut tl, 0, 0, 0).unwrap();
    assert_eq!(root.span().id, (9u64 << 32) + 1);
}

#[test]
fn inert_handle_does_nothing_inside_a_trace() {
    let idle = TraceLocal::new(3);
    let mut handle = new_async_handle_at(&idle, 10);
    let mut tl = TraceLocal::new(1);
    let (root, _collector) = start_trace_at(&mut tl, 0, 0, 0).unwrap();
    assert!(handle.start_trace_at(1, &mut tl, 5).is_none());
    assert_eq!(tl.depth(), 1);
    assert_eq!(tl.buffered(), 0);
    assert_eq!(tl.current_span_id(), Some(root.span().id));
}

#[test]
fn nested_guards_record_the_nesting() {
    // root { a { b {} c {} } d {} }
    let mut tl = TraceLocal::new(1);
    let (root, _collector) = start_trace_at(&mut tl, 0, 0, 0).unwrap();
    let a = new_span_at(&mut tl, 1, 10).unwrap();
    let b = new_span_at(&mut tl, 2, 20).unwrap();
    assert_eq!(tl.depth(), 3);
    assert!(!a.can_exit(&tl));
    assert!(b.can_exit(&tl));
    b.exit_at(&mut tl, 30);
    let c = new_span_at(&mut tl, 3, 40).unwrap();
    c.exit_at(&mut tl, 50);
    a.exit_at(&mut tl, 60);
    let d = new_span_at(&mut tl, 4, 70).unwrap();
    assert!(!root.can_exit(&tl));
    d.exit_at(&mut tl, 80);
    assert_eq!(tl.current_span_id(), Some(ID_1_0));
    let out = root.exit_at(&mut tl, 90);
    let id = |seq: u64| (1u64 << 32) + seq + 1;
    assert_eq!(
        out.batch().spans,
        vec![
            span(id(2), State::Normal, id(1), 20, 10, 2),
            span(id(3), State::Normal, id(1), 40, 10, 3),
            span(id(1), State::Normal, id(0), 10, 50, 1),
            span(id(4), State::Normal, id(0), 70, 10, 4),
            span(id(0), State::Normal, NO_PARENT, 0, 90, 0),
        ]
    );
    assert_eq!(tl.depth(), 0);
    assert_eq!(tl.buffered(), 0);
}

#[test]
fn handle_resumed_twice_inside_a_span_opens_chained_spans() {
    let mut tl = TraceLocal::new(1);
    let (root, _collector) = start_trace_at(&mut tl, 0, 100, 0).unwrap();
    let mut handle = new_async_handle_at(&tl, 105);
    let first = match handle.start_trace_at(1, &mut tl, 110).unwrap() {
        AsyncGuard::SpanGuard(guard) => guard,
        AsyncGuard::AsyncScopeGuard(_) => panic!("a scope was opened inside a span"),
    };
    // The first resumption begins at the tick of the capture and uses it up.
    assert_eq!(first.span(), span(ID_1_1, State::Normal, ID_1_0, 105, 0, 1));
    assert_eq!(handle.begin_ticks(), Some(0));
    let second = match handle.start_trace_at(2, &mut tl, 120).unwrap() {
        AsyncGuard::SpanGuard(guard) => guard,
        AsyncGuard::AsyncScopeGuard(_) => panic!("a scope was opened inside a span"),
    };
    assert_eq!(second.span(), span(ID_1_2, State::Normal, ID_1_1, 120, 0, 2));
    assert_eq!(tl.buffered(), 0);
    second.exit_at(&mut tl, 130);
    first.exit_at(&mut tl, 140);
    let out = root.exit_at(&mut tl, 150);
    assert!(out.batch().spans.iter().all(|s| s.state == State::Normal));
    assert_eq!(out.batch().spans.len(), 3);
}

#[test]
fn handle_resumed_twice_inside_a_span_opens_siblings() {
    let mut tl = TraceLocal::new(1);
    let (root, _collector) = start_trace_at(&mut tl, 0, 100, 0).unwrap();
    let mut handle = new_async_handle_at(&tl, 105);
    let first = handle.start_trace_at(1, &mut tl, 110).unwrap();
    assert!(first.can_exit(&tl));
    assert!(first.exit_at(&mut tl, 115).is_none());
    let second = handle.start_trace_at(2, &mut tl, 120).unwrap();
    assert!(second.exit_at(&mut tl, 125).is_none());
    let out = root.exit_at(&mut tl, 150);
    assert_eq!(
        out.batch().spans,
        vec![
            span(ID_1_1, State::Normal, ID_1_0, 105, 10, 1),
            span(ID_1_2, State::Normal, ID_1_0, 120, 5, 2),
            span(ID_1_0, State::Normal, NO_PARENT, 100, 50, 0),
        ]
    );
}

#[test]
fn second_trace_on_a_busy_context_is_refused() {
    let mut tl = TraceLocal::new(1);
    let (root, _collector) = start_trace_at(&mut tl, 0, 0, 0).unwrap();
    assert!(start_trace_at(&mut tl, 1, 5, 0).is_none());
    assert!(start_trace(&mut tl, 1u32, 0).is_none());
    assert_eq!(tl.depth(), 1);
    root.exit_at(&mut tl, 10);
    // One trace after the other is fine, and the numbering goes on.
    let (root, _collector) = start_trace_at(&mut tl, 2, 20, 0).unwrap();
    assert_eq!(root.span().id, ID_1_1);
}

#[test]
fn properties_travel_with_the_batch() {
    let mut tl = TraceLocal::new(1);
    let (root, collector) = start_trace_at(&mut tl, 0, 0, 0).unwrap();
    new_property(&mut tl, b"sample property:it works");
    new_property(&mut tl, b"");
    root.exit_at(&mut tl, 1).send();
    let trace = collector.finish().unwrap();
    assert_eq!(trace.properties, vec![b"sample property:it works".to_vec(), Vec::new()]);
}

#[test]
fn elapsed_ticks_survive_a_wrap_of_the_counter() {
    let mut tl = TraceLocal::new(1);
    let (root, _collector) = start_trace_at(&mut tl, 0, u64::MAX - 4, 0).unwrap();
    let out = root.exit_at(&mut tl, 5);
    assert_eq!(out.batch().spans[0].elapsed_ticks, 10);
    assert_eq!(minitrace::span::elapsed_ticks(7, 7), 0);
    assert_eq!(minitrace::span::elapsed_ticks(3, 10), 7);
    assert_eq!(minitrace::span::elapsed_ticks(10, 3), u64::MAX - 6);
}

#[test]
fn span_ids_put_the_prefix_above_the_sequence_number() {
    assert_eq!(minitrace::span::make_span_id(0, 0), 1);
    assert_eq!(minitrace::span::make_span_id(1, 0), 4_294_967_297);
    assert_eq!(minitrace::span::make_span_id(1, 1), 4_294_967_298);
    assert_eq!(minitrace::span::make_span_id(u32::MAX, 0xffff_fffe), u64::MAX);
    let mut tl = TraceLocal::new(5);
    assert!(tl.can_issue(u32::MAX));
    assert_eq!(tl.new_span_id(), Some((5u64 << 32) + 1));
    assert_eq!(tl.new_span_id(), Some((5u64 << 32) + 2));
    assert!(!tl.can_issue(u32::MAX));
    assert!(tl.can_issue(u32::MAX - 2));
}

#[test]
fn send_after_finish_is_lost_quietly() {
    let mut tl = TraceLocal::new(1);
    let (root, collector) = start_trace_at(&mut tl, 0, 0, 0).unwrap();
    assert_eq!(collector.anchor_unix_nanos(), 0);
    assert!(collector.collect().is_empty());
    assert_eq!(collector.finish().err(), Some(TraceError::MissingRoot));
    let out = root.exit_at(&mut tl, 10);
    assert!(!out.send());
    assert!(!tl.is_active());
}

fn batch(spans: Vec<Span>, properties: Vec<Vec<u8>>) -> SpanSet {
    SpanSet { spans, properties }
}

#[test]
fn merge_flattens_batches_in_order_and_anchors_the_root() {
    let trace = merge(
        vec![
            batch(vec![span(12, State::Pending, 10, 150, 25, 3), span(13, State::Normal, 12, 175, 5, 3)], vec![b"b".to_vec()]),
            batch(vec![], vec![]),
            batch(vec![span(11, State::Normal, 10, 120, 10, 2), span(10, State::Normal, NO_PARENT, 100, 200, 1)], vec![b"a".to_vec()]),
        ],
        1_000,
    )
    .unwrap();
    assert_eq!(trace.root_id, 10);
    assert_eq!(trace.properties, vec![b"b".to_vec(), b"a".to_vec()]);
    assert_eq!(
        trace.spans,
        vec![
            TraceSpan { id: 12, parent: Some(10), state: State::Pending, event: 3, start_time: 1_050, end_time: 1_075 },
            TraceSpan { id: 13, parent: Some(12), state: State::Normal, event: 3, start_time: 1_075, end_time: 1_080 },
            TraceSpan { id: 11, parent: Some(10), state: State::Normal, event: 2, start_time: 1_020, end_time: 1_030 },
            TraceSpan { id: 10, parent: None, state: State::Normal, event: 1, start_time: 1_000, end_time: 1_200 },
        ]
    );
}

#[test]
fn merge_places_spans_without_overflow() {
    let trace = merge(
        vec![batch(
            vec![
                span(1, State::Normal, NO_PARENT, u64::MAX, u64::MAX, 0),
                span(2, State::Normal, 1, u64::MAX - 1, u64::MAX, 0),
            ],
            vec![],
        )],
        u64::MAX,
    )
    .unwrap();
    let max = u64::MAX as u128;
    assert_eq!(trace.spans[0].start_time, max);
    assert_eq!(trace.spans[0].end_time, 2 * max);
    // The second span began one tick before the root: a full turn of the counter later.
    assert_eq!(trace.spans[1].start_time, 2 * max);
    assert_eq!(trace.spans[1].end_time, 3 * max);
}

fn merge_error(spans: Vec<Span>) -> TraceError {
    match merge(vec![batch(spans, vec![])], 0) {
        Ok(_) => panic!("merged"),
        Err(e) => e,
    }
}

#[test]
fn merge_reports_a_repeated_id() {
    let e = merge_error(vec![
        span(1, State::Normal, NO_PARENT, 0, 0, 0),
        span(2, State::Normal, 1, 0, 0, 0),
        span(3, State::Normal, 1, 0, 0, 0),
        span(2, State::Normal, 3, 0, 0, 0),
        span(3, State::Normal, 1, 0, 0, 0),
    ]);
    assert_eq!(e, TraceError::DuplicateId(2));
    // A repeated id is reported before a fault in the roots.
    let e = merge_error(vec![span(4, State::Normal, 1, 0, 0, 0), span(4, State::Normal, 1, 0, 0, 0)]);
    assert_eq!(e, TraceError::DuplicateId(4));
    // Across batches too.
    let merged = merge(
        vec![
            batch(vec![span(1, State::Normal, NO_PARENT, 0, 0, 0)], vec![]),
            batch(vec![span(1, State::Pending, 7, 0, 0, 0)], vec![]),
        ],
        0,
    );
    assert_eq!(merged.err(), Some(TraceError::DuplicateId(1)));
}

#[test]
fn merge_reports_a_missing_root() {
    assert_eq!(merge(vec![], 0).err(), Some(TraceError::MissingRoot));
    assert_eq!(merge_error(vec![]), TraceError::MissingRoot);
    assert_eq!(
        merge_error(vec![span(2, State::Normal, 1, 0, 0, 0), span(3, State::Normal, 2, 0, 0, 0)]),
        TraceError::MissingRoot
    );
}

#[test]
fn merge_reports_several_roots() {
    assert_eq!(
        merge_error(vec![
            span(1, State::Normal, NO_PARENT, 0, 0, 0),
            span(2, State::Normal, 1, 0, 0, 0),
            span(3, State::Normal, NO_PARENT, 0, 0, 0),
        ]),
        TraceError::MultipleRoots
    );
}

#[test]
fn contexts_with_different_prefixes_never_share_an_id() {
    let mut t1 = TraceLocal::new(1);
    let mut t2 = TraceLocal::new(2);
    let mut seen = std::collections::HashSet::new();
    for _ in 0..1000 {
        assert!(seen.insert(t1.new_span_id().unwrap()));
        assert!(seen.insert(t2.new_span_id().unwrap()));
    }
    assert!(!seen.contains(&NO_PARENT));
}

#[test]
fn a_context_out_of_numbers_records_nothing_more() {
    // One number left: a span can be opened, a resumption on an idle thread cannot.
    let mut tl = TraceLocal::with_issued(1, u32::MAX - 1);
    assert!(tl.can_issue(1));
    assert!(!tl.can_issue(2));
    let mut other = TraceLocal::new(2);
    let (root, _collector) = start_trace_at(&mut other, 0, 0, 0).unwrap();
    let mut handle = new_async_handle_at(&other, 1);
    assert!(handle.start_trace_at(1, &mut tl, 2).is_none());
    assert!(!tl.is_active());
    assert_eq!(tl.buffered(), 0);
    assert_eq!(handle.next_pending_parent_id(), Some(root.span().id));
    assert_eq!(handle.begin_ticks(), Some(1));

    let (last, _collector) = start_trace_at(&mut tl, 0, 0, 0).unwrap();
    assert_eq!(last.span().id, (1u64 << 32) + u32::MAX as u64);
    assert!(!tl.can_issue(1));
    assert_eq!(tl.new_span_id(), None);
    assert!(new_span_at(&mut tl, 1, 5).is_none());
    assert!(handle.start_trace_at(1, &mut tl, 5).is_none());
    assert_eq!(handle.begin_ticks(), Some(1));
    assert_eq!(tl.depth(), 1);
    last.exit_at(&mut tl, 9);

    let mut spent = TraceLocal::with_issued(3, u32::MAX);
    assert!(start_trace_at(&mut spent, 0, 0, 0).is_none());
    assert!(start_trace(&mut spent, 0u32, 0).is_none());
}

#[test]
fn a_used_up_tick_shows_no_wait() {
    // Captured at 105, resumed inside the root: that span begins at the capture and uses the tick up.
    let mut t1 = TraceLocal::new(1);
    let mut t2 = TraceLocal::new(2);
    let (root, collector) = start_trace_at(&mut t1, 0, 100, 1_000).unwrap();
    let mut handle = new_async_handle_at(&t1, 105);
    assert_eq!(handle.tick_used(), Some(false));
    let inside = handle.start_trace_at(1, &mut t1, 110).unwrap();
    assert!(inside.exit_at(&mut t1, 120).is_none());
    assert_eq!(handle.begin_ticks(), Some(0));
    assert_eq!(handle.tick_used(), Some(true));
    assert_eq!(handle.next_pending_parent_id(), Some(ID_1_0));

    // Resumed on an idle context at 500: the pending span measures nothing, and begins no earlier
    // than the capture.
    let guard = handle.start_trace_at(2, &mut t2, 500).unwrap();
    assert!(matches!(guard, AsyncGuard::AsyncScopeGuard(_)));
    let out = guard.exit_at(&mut t2, 530).unwrap();
    assert_eq!(
        out.batch().spans,
        vec![
            span(ID_2_0, State::Pending, ID_1_0, 500, 0, 2),
            span(ID_2_1, State::Normal, ID_2_0, 500, 30, 2),
        ]
    );
    out.send();
    assert_eq!(handle.begin_ticks(), Some(530));
    assert_eq!(handle.tick_used(), Some(false));

    // The release gave the handle a tick again: the next wait is measured from it.
    let guard = handle.start_trace_at(3, &mut t2, 600).unwrap();
    let out = guard.exit_at(&mut t2, 610).unwrap();
    assert_eq!(out.batch().spans[0], span((2u64 << 32) + 3, State::Pending, ID_2_1, 530, 70, 3));
    out.send();

    root.exit_at(&mut t1, 700).send();
    let trace = collector.finish().unwrap();
    assert_eq!(trace.spans.len(), 6);
    let pending = trace.spans.iter().find(|s| s.id == ID_2_0).unwrap();
    assert_eq!(pending.start_time, 1_400);
    assert_eq!(pending.end_time, 1_400);
}

#[test]
fn a_wait_from_tick_zero_is_a_wait_like_any_other() {
    // The counter reads 0 at the start of the trace and at the capture.
    let mut t1 = TraceLocal::new(1);
    let mut t2 = TraceLocal::new(2);
    let (root, collector) = start_trace_at(&mut t1, 0, 0, 9_000).unwrap();
    let mut handle = new_async_handle_at(&t1, 0);
    assert_eq!(handle.begin_ticks(), Some(0));
    assert_eq!(handle.tick_used(), Some(false));

    let guard = handle.start_trace_at(4, &mut t2, 50).unwrap();
    // Released when the counter, having rolled over, reads 0 again.
    let out = guard.exit_at(&mut t2, 0).unwrap();
    assert_eq!(
        out.batch().spans,
        vec![
            span(ID_2_0, State::Pending, ID_1_0, 0, 50, 4),
            span(ID_2_1, State::Normal, ID_2_0, 50, u64::MAX - 49, 4),
        ]
    );
    assert_eq!(handle.begin_ticks(), Some(0));
    assert_eq!(handle.tick_used(), Some(false));

    // The next wait is measured from that release, at tick 0.
    let guard = handle.start_trace_at(5, &mut t2, 30).unwrap();
    let out = guard.exit_at(&mut t2, 40).unwrap();
    assert_eq!(out.batch().spans[0], span((2u64 << 32) + 3, State::Pending, ID_2_1, 0, 30, 5));
    drop(out);
    drop(root);
    drop(collector);
}

#[test]
fn a_prefix_source_hands_each_prefix_out_once() {
    let mut source = minitrace::PrefixSource::new();
    assert_eq!(source.take(), Some(0));
    assert_eq!(source.take(), Some(1));
    assert_eq!(source.take(), Some(2));
}

#[test]
fn a_spent_context_is_renewed_between_traces() {
    let mut source = minitrace::PrefixSource::new();
    assert_eq!(source.take(), Some(0));
    let mut tl = TraceLocal::with_issued(0, u32::MAX - 1);

    // One number is not enough for a resumption: the idle context is replaced.
    assert!(minitrace::renew_if_spent(&mut tl, &mut source));
    assert!(tl.can_issue(u32::MAX));
    let (root, _collector) = start_trace_at(&mut tl, 0, 0, 0).unwrap();
    assert_eq!(root.span().id, ID_1_0);

    // Not inside a trace, and not while numbers are left.
    assert!(!minitrace::renew_if_spent(&mut tl, &mut source));
    root.exit_at(&mut tl, 1);
    assert!(!minitrace::renew_if_spent(&mut tl, &mut source));
    assert_eq!(source.take(), Some(2));

    let mut busy = TraceLocal::with_issued(7, u32::MAX - 1);
    let (last, _collector) = start_trace_at(&mut busy, 0, 0, 0).unwrap();
    assert!(!minitrace::renew_if_spent(&mut busy, &mut source));
    assert_eq!(busy.current_span_id(), Some(last.span().id));
    assert_eq!(source.take(), Some(3));
}
