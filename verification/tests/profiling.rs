use mere::history::{History, SPAN_HISTORY_FRAMES};
use mere::profiler::{Profiler, MAX_QUERIES};

#[test]
fn begin_reserves_query_pairs() {
    let mut p: Profiler<u32> = Profiler::new();
    assert_eq!(p.begin("a", 10), Some(0));
    p.end(15);
    assert_eq!(p.begin("b", 20), Some(2));
    p.end(30);
    assert_eq!(p.resolve(), Some(4));
}

#[test]
fn queries_run_out_at_the_limit() {
    let mut p: Profiler<u32> = Profiler::new();
    for i in 0..(MAX_QUERIES / 2) {
        assert_eq!(p.begin("pass", 0), Some(2 * i));
        p.end(1);
    }
    assert_eq!(p.begin("one too many", 0), None);
    assert_eq!(p.resolve(), Some(MAX_QUERIES));
}

#[test]
fn cpu_spans_are_relative_to_the_first() {
    let mut p: Profiler<u32> = Profiler::new();
    p.begin("a", 1_000);
    p.end(1_500);
    p.begin("b", 2_000);
    p.end(2_750);
    let spans = p.cpu_spans();
    assert_eq!(spans, vec![("a".to_string(), 0, 500), ("b".to_string(), 1_000, 1_750)]);
}

#[test]
fn span_before_the_first_counts_as_zero() {
    let mut p: Profiler<u32> = Profiler::new();
    p.begin("late", 100);
    p.end(50);
    assert_eq!(p.cpu_spans(), vec![("late".to_string(), 0, 0)]);
}

#[test]
fn end_without_begin_records_nothing() {
    let mut p: Profiler<u32> = Profiler::new();
    p.end(5);
    assert!(p.cpu_spans().is_empty());
}

#[test]
fn disabled_profiler_records_nothing() {
    let mut p: Profiler<u32> = Profiler::new();
    p.begin("a", 1);
    p.end(2);
    p.set_enabled(false);
    assert!(!p.enabled());
    assert_eq!(p.begin("b", 3), None);
    assert!(p.cpu_spans().is_empty());
    assert_eq!(p.resolve(), None);
    p.set_enabled(true);
    assert_eq!(p.begin("c", 4), Some(0));
}

#[test]
fn previous_frame_is_read_back_after_submission() {
    let mut p: Profiler<u32> = Profiler::new();
    p.begin("a", 0);
    p.end(1);
    p.set_submission_index(77);
    assert!(p.pending_readback().is_none());
    p.finish_frame();
    assert_eq!(p.pending_readback(), Some((&77, 2)));
    let ticks = p.gpu_span_ticks(&[100, 160]);
    assert_eq!(ticks, vec![("a", 0, 60)]);
    assert!(p.cpu_spans().is_empty());
    p.finish_frame();
    assert!(p.pending_readback().is_none());
}

#[test]
fn gpu_ticks_before_the_base_count_as_zero() {
    let mut p: Profiler<u32> = Profiler::new();
    p.begin("a", 0);
    p.begin("b", 0);
    p.set_submission_index(1);
    p.finish_frame();
    let ticks = p.gpu_span_ticks(&[50, 70, 40, 90]);
    assert_eq!(ticks, vec![("a", 0, 20), ("b", 0, 40)]);
}

#[test]
fn unsubmitted_frame_is_not_read_back() {
    let mut p: Profiler<u32> = Profiler::new();
    p.begin("a", 0);
    p.finish_frame();
    assert!(p.pending_readback().is_none());
}

#[test]
fn history_keeps_the_latest() {
    let mut h: History<u32> = History::new(3);
    assert!(h.latest().is_none());
    for v in 1..=5 {
        h.push(v);
    }
    assert_eq!(h.len(), 3);
    assert_eq!((*h.get(0), *h.get(1), *h.get(2)), (3, 4, 5));
    assert_eq!(h.latest(), Some(&5));
}

#[test]
fn span_history_holds_a_hundred_frames() {
    let mut h: History<usize> = History::new(SPAN_HISTORY_FRAMES);
    for v in 0..150 {
        h.push(v);
    }
    assert_eq!(h.len(), 100);
    assert_eq!(*h.get(0), 50);
}
