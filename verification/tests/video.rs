use ml_rust::models::Span;
use ml_rust::slot::{Admission, ProcessingSlot, RETRY_BACKOFF_MS};
use ml_rust::video::{best_score, scan, score_frame, FrameScore, SpanTracker, MATCH_THRESHOLD};

fn frames(scores: &[Option<i64>]) -> Vec<FrameScore> {
    scores
        .iter()
        .enumerate()
        .map(|(i, best)| FrameScore { time: 10_000 * i as i64, best: *best })
        .collect()
}

#[test]
fn five_frames_make_one_span() {
    let stream = frames(&[Some(2_000), Some(6_000), Some(7_000), Some(5_500), Some(1_000)]);
    let output = scan(&stream);
    assert_eq!(output.spans, vec![Span { start: 10_000, end: 30_000, max_score: 7_000 }]);
}

#[test]
fn a_span_that_is_open_at_the_end_is_closed() {
    let stream = frames(&[None, Some(9_000), Some(8_000)]);
    assert_eq!(scan(&stream).spans, vec![Span { start: 10_000, end: 20_000, max_score: 9_000 }]);
}

#[test]
fn a_single_matching_frame_is_a_span() {
    let stream = frames(&[Some(100), Some(5_001), Some(100)]);
    assert_eq!(scan(&stream).spans, vec![Span { start: 10_000, end: 10_000, max_score: 5_001 }]);
}

#[test]
fn the_match_threshold_is_strict() {
    assert_eq!(MATCH_THRESHOLD, 5_000);
    let stream = frames(&[Some(5_000), Some(5_000)]);
    assert!(scan(&stream).spans.is_empty());
}

#[test]
fn runs_parted_by_a_miss_make_separate_spans() {
    let stream = frames(&[
        Some(6_000),
        Some(6_500),
        None,
        Some(9_000),
        Some(4_000),
        Some(5_500),
        Some(7_500),
        Some(7_000),
    ]);
    assert_eq!(
        scan(&stream).spans,
        vec![
            Span { start: 0, end: 10_000, max_score: 6_500 },
            Span { start: 30_000, end: 30_000, max_score: 9_000 },
            Span { start: 50_000, end: 70_000, max_score: 7_500 },
        ]
    );
}

#[test]
fn spans_are_in_time_order() {
    let stream = frames(&[Some(6_000), None, Some(6_000), None, Some(6_000), Some(8_000)]);
    let spans = scan(&stream).spans;
    assert_eq!(spans.len(), 3);
    for span in &spans {
        assert!(span.start <= span.end);
        assert!(span.max_score > MATCH_THRESHOLD);
    }
    for pair in spans.windows(2) {
        assert!(pair[0].end <= pair[1].start);
    }
}

#[test]
fn an_empty_stream_has_no_span() {
    assert!(scan(&Vec::new()).spans.is_empty());
}

#[test]
fn tracker_steps_through_a_run() {
    let mut tracker = SpanTracker::new();
    assert!(!tracker.in_match);
    assert_eq!(tracker.step(&FrameScore { time: 5, best: Some(4_000) }), None);
    assert!(!tracker.in_match);
    assert_eq!(tracker.step(&FrameScore { time: 6, best: Some(8_000) }), None);
    assert_eq!(
        tracker,
        SpanTracker { in_match: true, span_start: 6, span_end: 6, running_max: 8_000 }
    );
    assert_eq!(tracker.step(&FrameScore { time: 7, best: Some(6_000) }), None);
    assert_eq!(
        tracker,
        SpanTracker { in_match: true, span_start: 6, span_end: 7, running_max: 8_000 }
    );
    assert_eq!(tracker.step(&FrameScore { time: 8, best: Some(9_000) }), None);
    assert_eq!(tracker.running_max, 9_000);
    assert_eq!(
        tracker.step(&FrameScore { time: 9, best: None }),
        Some(Span { start: 6, end: 8, max_score: 9_000 })
    );
    assert!(!tracker.in_match);
    assert_eq!(tracker.finish(), None);
}

#[test]
fn tracker_finish_closes_the_open_run() {
    let mut tracker = SpanTracker::new();
    tracker.step(&FrameScore { time: 3, best: Some(5_500) });
    assert_eq!(tracker.finish(), Some(Span { start: 3, end: 3, max_score: 5_500 }));
    assert_eq!(tracker.finish(), None);
}

#[test]
fn best_score_is_the_highest_defined_one() {
    assert_eq!(best_score(&vec![]), None);
    assert_eq!(best_score(&vec![None, None]), None);
    assert_eq!(best_score(&vec![Some(3), None, Some(9), Some(-4)]), Some(9));
    assert_eq!(best_score(&vec![None, Some(-10_000)]), Some(-10_000));
}

#[test]
fn score_frame_takes_the_best_face() {
    let target = vec![30_000, 40_000];
    let faces = vec![vec![40_000, 30_000], vec![0, 0], vec![30_000, 40_000], vec![-30_000, 40_000]];
    assert_eq!(score_frame(77, &faces, &target), FrameScore { time: 77, best: Some(10_000) });
    let others = vec![vec![40_000, 30_000], vec![1, 2, 3]];
    assert_eq!(score_frame(78, &others, &target), FrameScore { time: 78, best: Some(9_600) });
    assert_eq!(score_frame(79, &vec![], &target), FrameScore { time: 79, best: None });
    assert_eq!(score_frame(80, &vec![vec![0, 0]], &target), FrameScore { time: 80, best: None });
}

#[test]
fn a_face_just_above_the_threshold_matches() {
    // the cosine is 0.500025
    let frame = score_frame(5, &vec![vec![500_025, 866_011]], &[1, 0]);
    assert_eq!(frame, FrameScore { time: 5, best: Some(5_001) });
    assert_eq!(scan(&vec![frame]).spans, vec![Span { start: 5, end: 5, max_score: 5_001 }]);
    // at one half exactly there is no match
    let even = score_frame(6, &vec![vec![1, 1, 1, 1]], &[1, 0, 0, 0]);
    assert_eq!(even, FrameScore { time: 6, best: Some(5_000) });
    assert!(scan(&vec![even]).spans.is_empty());
}

#[test]
fn slot_is_held_by_one_job_at_a_time() {
    let mut slot = ProcessingSlot::new();
    assert!(!slot.is_busy());
    assert_eq!(slot.try_acquire(), Admission::Run { job: 0 });
    assert!(slot.is_busy());
    assert_eq!(slot.try_acquire(), Admission::Wait { backoff_ms: 600 });
    assert_eq!(slot.try_acquire(), Admission::Wait { backoff_ms: RETRY_BACKOFF_MS });
    assert!(!slot.release(5));
    assert!(slot.is_busy());
    assert!(slot.release(0));
    assert!(!slot.is_busy());
    assert!(!slot.release(0));
    assert_eq!(slot.try_acquire(), Admission::Run { job: 1 });
    assert!(slot.release(1));
}

#[test]
fn slot_numbers_start_again_after_the_last() {
    let mut slot = ProcessingSlot { holder: None, next_job: u64::MAX };
    assert_eq!(slot.try_acquire(), Admission::Run { job: u64::MAX });
    assert_eq!(slot.next_job, 0);
    assert!(slot.release(u64::MAX));
    assert_eq!(slot.try_acquire(), Admission::Run { job: 0 });
}
