use minitrace::{draw_stdout, find_fault, merge, Bar, DrawError, Span, SpanSet, State, TraceSpan, NO_PARENT};

fn span(id: u64, parent: Option<u64>, start_time: u128, end_time: u128) -> TraceSpan {
    TraceSpan { id, parent, state: State::Normal, event: 0, start_time, end_time }
}

fn bar(id: u64, leading: usize, bar: usize, trailing: usize, duration: u128) -> Bar {
    Bar { id, leading, bar, trailing, duration }
}

#[test]
fn root_alone_fills_the_chart() {
    let chart = draw_stdout(vec![span(1, None, 1_000, 8_000)]).unwrap();
    assert_eq!(chart, vec![bar(1, 0, 70, 1, 7_000)]);
}

#[test]
fn rows_follow_the_tree_and_scale_to_the_root() {
    // 1 { 2 { 4 } 3 }, listed out of order; the root lasts 1400 ns: 20 ns to a cell.
    let chart = draw_stdout(vec![
        span(4, Some(2), 300, 500),
        span(3, Some(1), 1_100, 1_400),
        span(2, Some(1), 200, 900),
        span(1, None, 0, 1_400),
    ])
    .unwrap();
    assert_eq!(
        chart,
        vec![
            bar(1, 0, 70, 1, 1_400),
            bar(3, 55, 15, 1, 300),
            bar(2, 10, 35, 26, 700),
            bar(4, 15, 10, 46, 200),
        ]
    );
}

#[test]
fn children_are_drawn_in_the_order_of_the_list() {
    let chart = draw_stdout(vec![
        span(1, None, 0, 70),
        span(5, Some(1), 0, 10),
        span(3, Some(1), 10, 20),
        span(4, Some(1), 20, 30),
    ])
    .unwrap();
    let ids: Vec<u64> = chart.iter().map(|b| b.id).collect();
    assert_eq!(ids, vec![1, 5, 3, 4]);
}

#[test]
fn cells_are_rounded_down() {
    // 3 ns to 70 cells: 1 ns is 23 cells and a third.
    let chart = draw_stdout(vec![span(1, None, 10, 13), span(2, Some(1), 11, 12)]).unwrap();
    assert_eq!(chart, vec![bar(1, 0, 70, 1, 3), bar(2, 23, 23, 25, 1)]);
}

#[test]
fn spans_that_do_not_hang_from_the_root_have_no_row() {
    let chart = draw_stdout(vec![
        span(1, None, 0, 100),
        span(2, Some(9), 0, 1_000_000),
        span(3, Some(2), 500, 600),
        span(4, Some(4), 0, 10),
    ])
    .unwrap();
    assert_eq!(chart, vec![bar(1, 0, 70, 1, 100)]);
}

#[test]
fn the_last_span_without_a_parent_is_the_root() {
    let chart = draw_stdout(vec![span(1, None, 0, 100), span(2, None, 50, 60), span(3, Some(2), 55, 60)]).unwrap();
    assert_eq!(chart, vec![bar(2, 0, 70, 1, 10), bar(3, 35, 35, 1, 5)]);
}

#[test]
fn a_root_without_duration_draws_empty_bars() {
    let chart = draw_stdout(vec![span(1, None, 5, 5), span(2, Some(1), 5, 5)]).unwrap();
    assert_eq!(chart, vec![bar(1, 0, 0, 71, 0), bar(2, 0, 0, 71, 0)]);
    let chart = draw_stdout(vec![span(1, None, 5, 5), span(2, Some(1), 5, 6)]);
    assert_eq!(chart, Err(DrawError::OutsideRoot(2)));
}

#[test]
fn a_row_is_no_wider_than_the_chart() {
    // 70 ns root: a cell is a nanosecond.
    let chart = draw_stdout(vec![span(1, None, 0, 70), span(2, Some(1), 60, 70)]).unwrap();
    assert_eq!(chart[1], bar(2, 60, 10, 1, 10));
    let chart = draw_stdout(vec![span(1, None, 0, 70), span(2, Some(1), 60, 71)]);
    assert_eq!(chart, Err(DrawError::OutsideRoot(2)));
    // A span that overruns the root by less than a cell still fits.
    let chart = draw_stdout(vec![span(1, None, 0, 140), span(2, Some(1), 120, 141)]).unwrap();
    assert_eq!(chart[1], bar(2, 60, 10, 1, 21));
}

#[test]
fn a_span_that_begins_before_the_root_is_outside() {
    let chart = draw_stdout(vec![span(1, None, 10, 80), span(2, Some(1), 9, 20)]);
    assert_eq!(chart, Err(DrawError::OutsideRoot(2)));
    // Far outside, where the scaled length would not fit any integer.
    let chart = draw_stdout(vec![span(1, None, 10, 80), span(2, Some(1), 10, u128::MAX)]);
    assert_eq!(chart, Err(DrawError::OutsideRoot(2)));
    let chart = draw_stdout(vec![span(1, None, 10, 80), span(2, Some(1), u128::MAX, u128::MAX)]);
    assert_eq!(chart, Err(DrawError::OutsideRoot(2)));
}

#[test]
fn the_first_span_outside_in_drawing_order_is_reported() {
    let chart = draw_stdout(vec![
        span(1, None, 0, 70),
        span(2, Some(1), 0, 10),
        span(3, Some(1), 0, 500),
        span(4, Some(2), 0, 400),
    ]);
    assert_eq!(chart, Err(DrawError::OutsideRoot(4)));
}

#[test]
fn a_repeated_id_is_found() {
    let spans = vec![span(1, None, 0, 70), span(2, Some(1), 0, 10), span(2, Some(1), 20, 30)];
    assert_eq!(find_fault(&spans), Some(DrawError::DuplicatedId(2)));
    let spans = vec![span(7, None, 1, 2), span(7, Some(7), 1, 2)];
    assert_eq!(find_fault(&spans), Some(DrawError::DuplicatedId(7)));
    // Before a missing root.
    let spans = vec![span(2, Some(1), 0, 10), span(2, Some(1), 20, 30)];
    assert_eq!(find_fault(&spans), Some(DrawError::DuplicatedId(2)));
}

#[test]
fn a_span_that_ends_before_it_begins_is_found() {
    let spans = vec![span(1, None, 0, 70), span(2, Some(1), 10, 9)];
    assert_eq!(find_fault(&spans), Some(DrawError::EndsBeforeStart(2)));
    // It is looked at before the id of the same span, and after the spans before it.
    let spans = vec![span(1, None, 0, 70), span(1, Some(1), 10, 9)];
    assert_eq!(find_fault(&spans), Some(DrawError::EndsBeforeStart(1)));
    let spans = vec![span(1, None, 0, 70), span(1, None, 0, 70), span(3, Some(1), 10, 9)];
    assert_eq!(find_fault(&spans), Some(DrawError::DuplicatedId(1)));
}

#[test]
fn a_list_without_a_root_is_found() {
    assert_eq!(find_fault(&vec![]), Some(DrawError::NoRoot));
    assert_eq!(find_fault(&vec![span(2, Some(1), 0, 10)]), Some(DrawError::NoRoot));
}

#[test]
fn a_list_that_can_be_drawn_has_no_fault() {
    assert_eq!(find_fault(&vec![span(1, None, 0, 0)]), None);
    let spans = vec![span(4, Some(2), 300, 500), span(2, Some(1), 200, 900), span(1, None, 0, 1_400)];
    assert_eq!(find_fault(&spans), None);
    // A span outside the root is no fault of the list: it shows when the chart is laid out.
    let spans = vec![span(1, None, 10, 80), span(2, Some(1), 9, 20)];
    assert_eq!(find_fault(&spans), None);
    assert_eq!(draw_stdout(spans), Err(DrawError::OutsideRoot(2)));
}

#[test]
fn a_root_of_any_length_can_be_scaled() {
    let chart = draw_stdout(vec![span(1, None, 0, u128::MAX), span(2, Some(1), u128::MAX / 2, u128::MAX)]).unwrap();
    assert_eq!(chart, vec![bar(1, 0, 70, 1, u128::MAX), bar(2, 34, 35, 2, u128::MAX - u128::MAX / 2)]);
    let third = u128::MAX / 3;
    let chart = draw_stdout(vec![span(1, None, 0, u128::MAX), span(2, Some(1), third, 2 * third)]).unwrap();
    assert_eq!(chart[1], bar(2, 23, 23, 25, third));
    // One nanosecond of a root of 2^127 is no cell; the whole is all of them.
    let big = 1u128 << 127;
    let chart = draw_stdout(vec![span(1, None, 5, big + 5), span(2, Some(1), 5, 6), span(3, Some(1), 5, big + 5)]).unwrap();
    assert_eq!(chart, vec![bar(1, 0, 70, 1, big), bar(2, 0, 0, 71, 1), bar(3, 0, 70, 1, big)]);
    let chart = draw_stdout(vec![span(1, None, 5, big + 5), span(2, Some(1), 5, u128::MAX)]);
    assert_eq!(chart, Err(DrawError::OutsideRoot(2)));
}

#[test]
fn cells_are_exact_where_a_float_would_round() {
    // 45 ns of 50 ns are 63 cells: 45 * 70 / 50.
    let chart = draw_stdout(vec![span(1, None, 0, 50), span(2, Some(1), 0, 45)]).unwrap();
    assert_eq!(chart, vec![bar(1, 0, 70, 1, 50), bar(2, 0, 63, 8, 45)]);
}

#[test]
fn a_deep_chain_is_drawn_to_its_end() {
    let depth = 200u64;
    let mut spans = vec![span(1, None, 0, 1_000)];
    for id in 2..=depth {
        spans.push(span(id, Some(id - 1), 0, 1_000));
    }
    spans.reverse();
    let chart = draw_stdout(spans).unwrap();
    assert_eq!(chart.len(), depth as usize);
    for (row, id) in chart.iter().zip(1..=depth) {
        assert_eq!(*row, bar(id, 0, 70, 1, 1_000));
    }
}

#[test]
fn a_merged_trace_can_be_drawn() {
    let trace = merge(
        vec![SpanSet {
            spans: vec![
                Span { id: 2, state: State::Normal, parent_id: 1, begin_ticks: 135, elapsed_ticks: 70, event: 1 },
                Span { id: 1, state: State::Normal, parent_id: NO_PARENT, begin_ticks: 100, elapsed_ticks: 140, event: 0 },
            ],
            properties: vec![],
        }],
        1_000_000,
    )
    .unwrap();
    let chart = draw_stdout(trace.spans).unwrap();
    assert_eq!(chart, vec![bar(1, 0, 70, 1, 140), bar(2, 17, 35, 19, 70)]);
}
