use ddshow::event::{ScheduleEvent, ShutdownEvent, StartStop, TimelyEvent};
use ddshow::timeline::{Span, SpanKind, TimelineReconstructor, TimestampedEvent};

fn schedule(recv: u64, worker: usize, operator: usize, start_stop: StartStop) -> TimestampedEvent {
    TimestampedEvent {
        recv,
        worker,
        event: TimelyEvent::Schedule(ScheduleEvent {
            id: operator,
            start_stop,
        }),
    }
}

fn shutdown(recv: u64, worker: usize, operator: usize) -> TimestampedEvent {
    TimestampedEvent {
        recv,
        worker,
        event: TimelyEvent::Shutdown(ShutdownEvent { id: operator }),
    }
}

#[test]
fn matched_schedule_pair_emits_one_span() {
    // Worker 0, Schedule start for operator 5 at receipt time 100, stop at
    // 150: one activation span of duration 50, emitted at receipt time 150.
    let mut rec = TimelineReconstructor::new();
    assert_eq!(rec.process(&schedule(100, 0, 5, StartStop::Start)), None);
    let span = rec
        .process(&schedule(150, 0, 5, StartStop::Stop))
        .expect("span emitted");
    assert_eq!(
        span,
        Span {
            operator: 5,
            worker: 0,
            kind: SpanKind::Activation,
            start: 100,
            duration: 50,
            shutdown_terminated: false,
        }
    );
    let (spans, malformed, negative) = rec.finish();
    assert_eq!(spans, vec![(150, span)]);
    assert_eq!(malformed, 0);
    assert_eq!(negative, 0);
}

#[test]
fn shutdown_without_start_emits_nothing() {
    // Shutdown for operator 7 with no prior start: no span, no diagnostic.
    let mut rec = TimelineReconstructor::new();
    assert_eq!(rec.process(&shutdown(42, 0, 7)), None);
    let (spans, malformed, negative) = rec.finish();
    assert!(spans.is_empty());
    assert_eq!(malformed, 0);
    assert_eq!(negative, 0);
}

#[test]
fn unmatched_trailing_start_is_dropped_and_counted() {
    let mut rec = TimelineReconstructor::new();
    assert_eq!(rec.process(&schedule(10, 1, 2, StartStop::Start)), None);
    let (spans, malformed, negative) = rec.finish();
    assert!(spans.is_empty());
    assert_eq!(malformed, 1);
    assert_eq!(negative, 0);
}

#[test]
fn stop_without_pending_start_is_dropped() {
    let mut rec = TimelineReconstructor::new();
    assert_eq!(rec.process(&schedule(10, 1, 2, StartStop::Stop)), None);
    let (spans, malformed, negative) = rec.finish();
    assert!(spans.is_empty());
    assert_eq!(malformed, 0);
    assert_eq!(negative, 0);
}

#[test]
fn duplicate_start_last_wins() {
    let mut rec = TimelineReconstructor::new();
    rec.process(&schedule(10, 0, 1, StartStop::Start));
    rec.process(&schedule(20, 0, 1, StartStop::Start));
    let span = rec
        .process(&schedule(30, 0, 1, StartStop::Stop))
        .expect("span emitted");
    assert_eq!(span.start, 20);
    assert_eq!(span.duration, 10);
    // The overwritten start never closes: only one span leaves.
    let (spans, malformed, _) = rec.finish();
    assert_eq!(spans.len(), 1);
    assert_eq!(malformed, 0);
}

#[test]
fn shutdown_closes_pending_start_as_shutdown_terminated() {
    let mut rec = TimelineReconstructor::new();
    rec.process(&schedule(5, 2, 9, StartStop::Start));
    let span = rec.process(&shutdown(25, 2, 9)).expect("span emitted");
    assert_eq!(
        span,
        Span {
            operator: 9,
            worker: 2,
            kind: SpanKind::Activation,
            start: 5,
            duration: 20,
            shutdown_terminated: true,
        }
    );
}

#[test]
fn negative_duration_is_clamped_and_reported() {
    // The terminating receipt time precedes the matched start: the span is
    // still emitted, clamped to zero, and the data error is counted.
    let mut rec = TimelineReconstructor::new();
    rec.process(&schedule(100, 0, 3, StartStop::Start));
    let span = rec
        .process(&schedule(60, 0, 3, StartStop::Stop))
        .expect("span emitted");
    assert_eq!(span.start, 100);
    assert_eq!(span.duration, 0);
    let (spans, malformed, negative) = rec.finish();
    assert_eq!(spans.len(), 1);
    assert_eq!(malformed, 0);
    assert_eq!(negative, 1);
}

#[test]
fn keys_are_worker_and_operator() {
    // The same operator id on two workers pairs independently.
    let mut rec = TimelineReconstructor::new();
    rec.process(&schedule(1, 0, 7, StartStop::Start));
    rec.process(&schedule(2, 1, 7, StartStop::Start));
    let a = rec
        .process(&schedule(8, 1, 7, StartStop::Stop))
        .expect("worker 1 span");
    let b = rec
        .process(&schedule(9, 0, 7, StartStop::Stop))
        .expect("worker 0 span");
    assert_eq!((a.worker, a.start, a.duration), (1, 2, 6));
    assert_eq!((b.worker, b.start, b.duration), (0, 1, 8));
}

#[test]
fn spans_leave_sorted_by_terminating_receipt_time() {
    // Receipt times are monotonic per worker only; terminators arrive out of
    // global receipt order, yet spans leave in non-decreasing order.
    let mut rec = TimelineReconstructor::new();
    let events = vec![
        schedule(10, 0, 1, StartStop::Start),
        schedule(5, 1, 1, StartStop::Start),
        schedule(90, 0, 1, StartStop::Stop),
        schedule(40, 1, 1, StartStop::Stop),
    ];
    rec.process_all(&events);
    let (spans, _, _) = rec.finish();
    assert_eq!(spans.len(), 2);
    assert_eq!(spans[0].0, 40);
    assert_eq!(spans[1].0, 90);
    assert_eq!(spans[0].1.worker, 1);
    assert_eq!(spans[1].1.worker, 0);
}

#[test]
fn reordering_independent_keys_yields_identical_span_set() {
    // Two interleavings that preserve per-key order emit the same spans.
    let one = vec![
        schedule(10, 0, 1, StartStop::Start),
        schedule(11, 0, 2, StartStop::Start),
        schedule(20, 0, 1, StartStop::Stop),
        schedule(22, 0, 2, StartStop::Stop),
    ];
    let two = vec![
        schedule(11, 0, 2, StartStop::Start),
        schedule(10, 0, 1, StartStop::Start),
        schedule(22, 0, 2, StartStop::Stop),
        schedule(20, 0, 1, StartStop::Stop),
    ];
    let mut rec1 = TimelineReconstructor::new();
    rec1.process_all(&one);
    let (spans1, _, _) = rec1.finish();
    let mut rec2 = TimelineReconstructor::new();
    rec2.process_all(&two);
    let (spans2, _, _) = rec2.finish();
    assert_eq!(spans1, spans2);
}

#[test]
fn unrelated_events_do_not_disturb_pending_state() {
    let mut rec = TimelineReconstructor::new();
    rec.process(&schedule(1, 0, 4, StartStop::Start));
    rec.process(&TimestampedEvent {
        recv: 2,
        worker: 0,
        event: TimelyEvent::Text(String::from("noise")),
    });
    let span = rec
        .process(&schedule(3, 0, 4, StartStop::Stop))
        .expect("span emitted");
    assert_eq!(span.duration, 2);
}

#[test]
fn reconstruct_timeline_runs_the_whole_stream() {
    let events = vec![
        schedule(10, 0, 1, StartStop::Start),
        schedule(20, 0, 1, StartStop::Stop),
        schedule(5, 1, 2, StartStop::Start),
        schedule(30, 1, 2, StartStop::Start),
    ];
    let (spans, malformed, negative) = ddshow::timeline::reconstruct_timeline(&events);
    assert_eq!(spans.len(), 1);
    assert_eq!(spans[0].0, 20);
    assert_eq!(spans[0].1.duration, 10);
    // The trailing unmatched start for (1, 2) is dropped and counted once.
    assert_eq!(malformed, 1);
    assert_eq!(negative, 0);
}
