use orbistoun_gpu::perf::{
    add, count, detail, saturating_nanos, set_detail, span, take, take_spans, Count, Phase, Span, Tally,
};

#[test]
fn a_take_answers_what_was_added_and_starts_again() {
    let mut tally = Tally::new();
    let _ = take(&mut tally);
    add(&mut tally, Phase::Present, saturating_nanos(std::time::Duration::from_millis(3).as_nanos()));
    count(&mut tally, Count::Flips);
    count(&mut tally, Count::Flips);
    let first = take(&mut tally);
    assert!(first.spent(Phase::Present) >= 3_000_000);
    assert_eq!(first.counted(Count::Flips), 2);
    let second = take(&mut tally);
    assert_eq!(second.counted(Count::Flips), 0);
    assert_eq!(second.spent(Phase::Present), 0);
}

#[test]
fn a_span_counts_only_with_detail_on() {
    let mut tally = Tally::new();
    set_detail(&mut tally, false);
    let _ = take_spans(&mut tally);
    span(&mut tally, Span::Copy, 5);
    assert_eq!(take_spans(&mut tally)[Span::Copy.index()], (0, 0));
    set_detail(&mut tally, true);
    assert!(detail(&tally));
    span(&mut tally, Span::Copy, 1_000_000);
    let (spent, counted) = take_spans(&mut tally)[Span::Copy.index()];
    assert_eq!(counted, 1);
    assert!(spent >= 1_000_000);
    assert_eq!(take_spans(&mut tally)[Span::Copy.index()], (0, 0));
}

#[test]
fn labels_and_order_name_every_phase_and_span() {
    assert_eq!(Phase::ALL.len(), 12);
    assert_eq!(Span::ALL.len(), 29);
    for (i, phase) in Phase::ALL.iter().enumerate() {
        assert_eq!(phase.index(), i);
    }
    for (i, s) in Span::ALL.iter().enumerate() {
        assert_eq!(s.index(), i);
    }
    assert_eq!(Phase::Submit.label(), "submit (total)");
    assert_eq!(Phase::DrawOther.label(), "draw setup");
    assert_eq!(Span::WholeWindow.label(), "whole: window");
    assert_eq!(Count::Draws.index(), 2);
}

#[test]
fn a_counter_wraps_and_a_long_duration_saturates() {
    let mut tally = Tally::new();
    add(&mut tally, Phase::Gpu, u64::MAX);
    add(&mut tally, Phase::Gpu, 2);
    assert_eq!(take(&mut tally).spent(Phase::Gpu), 1);
    assert_eq!(saturating_nanos(u128::from(u64::MAX) + 1), u64::MAX);
    assert_eq!(saturating_nanos(7), 7);
}
