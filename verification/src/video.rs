//! Finding the spans of a video in which a face is present, frame by frame.
use vstd::prelude::*;
use crate::models::{Span, VideoFacialRecognitionOutput};
use crate::runs::{
    is_run, lemma_spans_are_runs, lemma_spans_in_time_order, runs_of, span_covers,
    spans_in_order, times_ordered,
};
use crate::utils::{comparable, cosine_similarity_up, passes, similarity_up};

verus! {

/// The similarity that a frame's best face has to exceed for the frame to
/// match: one half.
pub const MATCH_THRESHOLD: i64 = 5_000;

/// What one frame contributes: its time, and the best similarity of its
/// faces to the face that is looked for, if it shows any face that could be
/// scored.
#[derive(Clone, Copy, Debug, PartialEq, Eq, Structural)]
pub struct FrameScore {
    pub time: i64,
    pub best: Option<i64>,
}

/// The frame shows a face that is similar enough.
pub open spec fn matching(best: Option<i64>) -> bool {
    best is Some && best->0 > MATCH_THRESHOLD
}

/// The greater of two scores.
pub open spec fn higher(a: i64, b: i64) -> i64 {
    if a >= b {
        a
    } else {
        b
    }
}

/// The best of the first `n` similarities; a similarity that is undefined
/// counts as no face at all.
pub open spec fn best_of(scores: Seq<Option<i64>>, n: int) -> Option<i64>
    decreases n,
{
    if n <= 0 {
        None
    } else {
        let before = best_of(scores, n - 1);
        match (before, scores[n - 1]) {
            (Some(b), Some(s)) => Some(higher(b, s)),
            (None, Some(s)) => Some(s),
            (_, None) => before,
        }
    }
}

/// The best of the first `n` similarities is one of them and no lower than
/// any of them; there is none exactly when every one of them is undefined.
pub proof fn lemma_best_of(scores: Seq<Option<i64>>, n: int)
    requires
        0 <= n <= scores.len(),
    ensures
        best_of(scores, n) is None <==> forall|i: int| 0 <= i < n ==> scores[i] is None,
        best_of(scores, n) is Some ==> exists|i: int|
            0 <= i < n && scores[i] == best_of(scores, n),
        forall|i: int|
            0 <= i < n && scores[i] is Some ==> best_of(scores, n) is Some && (
            #[trigger] scores[i])->0 <= best_of(scores, n)->0,
    decreases n,
{
    if n > 0 {
        lemma_best_of(scores, n - 1);
        let before = best_of(scores, n - 1);
        if before is Some {
            let w = choose|i: int| 0 <= i < n - 1 && scores[i] == before;
            assert(scores[w] == before);
        }
        if best_of(scores, n) is Some {
            if scores[n - 1] == best_of(scores, n) {
            } else {
                let w = choose|i: int| 0 <= i < n - 1 && scores[i] == before;
                assert(scores[w] == best_of(scores, n));
            }
        }
    }
}

/// The best similarity among the faces of one frame. A similarity that is
/// undefined counts as no face; a frame without a face that could be scored
/// has no best similarity.
pub fn best_score(scores: &Vec<Option<i64>>) -> (best: Option<i64>)
    ensures
        best == best_of(scores@, scores.len() as int),
        best is None <==> forall|i: int| 0 <= i < scores.len() ==> scores[i] is None,
        best is Some ==> exists|i: int| 0 <= i < scores.len() && scores[i] == best,
        forall|i: int|
            0 <= i < scores.len() && scores[i] is Some ==> best is Some && (#[trigger] scores[i])->0
                <= best->0,
{
    let mut best: Option<i64> = None;
    let mut i: usize = 0;
    while i < scores.len()
        invariant
            i <= scores.len(),
            best == best_of(scores@, i as int),
        decreases scores.len() - i,
    {
        match (best, scores[i]) {
            (Some(b), Some(s)) => {
                if s > b {
                    best = Some(s);
                }
            },
            (None, Some(s)) => {
                best = Some(s);
            },
            _ => {},
        }
        i += 1;
    }
    proof {
        lemma_best_of(scores@, scores.len() as int);
    }
    best
}

/// The similarity of each face of a frame to the face that is looked for,
/// rounded up to the ten-thousandth.
pub open spec fn similarities(embeddings: Seq<Vec<i32>>, target: Seq<i32>) -> Seq<Option<i64>> {
    Seq::new(embeddings.len(), |i: int| similarity_up(embeddings[i]@, target))
}

/// Face `i` of the frame can be compared with the face that is looked for,
/// and the cosine of the angle between the two is above the threshold.
/// Nothing is rounded in this.
pub open spec fn face_matches(embeddings: Seq<Vec<i32>>, target: Seq<i32>, i: int) -> bool {
    comparable(embeddings[i]@, target) && passes(embeddings[i]@, target, MATCH_THRESHOLD as int)
}

/// What a frame contributes: the best similarity of its faces to the face
/// that is looked for, rounded up to the ten-thousandth. A face whose
/// similarity is undefined counts as no face. The frame matches exactly
/// when the similarity of one of its faces is above the threshold: rounding
/// up keeps every similarity on its side of the threshold.
pub fn score_frame(time: i64, embeddings: &Vec<Vec<i32>>, target: &[i32]) -> (frame: FrameScore)
    ensures
        frame.time == time,
        frame.best == best_of(similarities(embeddings@, target@), embeddings.len() as int),
        matching(frame.best) <==> exists|i: int|
            0 <= i < embeddings.len() && face_matches(embeddings@, target@, i),
{
    let mut scores: Vec<Option<i64>> = Vec::new();
    let mut i: usize = 0;
    while i < embeddings.len()
        invariant
            i <= embeddings.len(),
            scores@ == similarities(embeddings@, target@).take(i as int),
            forall|j: int|
                0 <= j < i ==> ((#[trigger] scores[j]) is Some && scores[j]->0 > MATCH_THRESHOLD
                    <==> face_matches(embeddings@, target@, j)),
        decreases embeddings.len() - i,
    {
        let score = cosine_similarity_up(embeddings[i].as_slice(), target);
        proof {
            if score is Some {
                assert(score->0 > MATCH_THRESHOLD <==> passes(
                    embeddings[i as int]@,
                    target@,
                    MATCH_THRESHOLD as int,
                ));
            }
        }
        scores.push(score);
        assert(scores@ =~= similarities(embeddings@, target@).take(i + 1));
        i += 1;
    }
    assert(scores@ =~= similarities(embeddings@, target@));
    let best = best_score(&scores);
    proof {
        if matching(best) {
            let w = choose|j: int| 0 <= j < scores.len() && scores[j] == best;
            assert(face_matches(embeddings@, target@, w));
        }
        if exists|j: int| 0 <= j < embeddings.len() && face_matches(embeddings@, target@, j) {
            let w = choose|j: int|
                0 <= j < embeddings.len() && face_matches(embeddings@, target@, j);
            assert(scores[w] is Some && scores[w]->0 > MATCH_THRESHOLD);
        }
    }
    FrameScore { time, best }
}

/// The state of the scan between two frames.
#[derive(Clone, Copy, Debug, PartialEq, Eq, Structural)]
pub struct SpanTracker {
    /// The last frame matched.
    pub in_match: bool,
    /// Time of the first frame of the current run of matching frames.
    pub span_start: i64,
    /// Time of its last frame so far.
    pub span_end: i64,
    /// The highest similarity seen in it.
    pub running_max: i64,
}

impl SpanTracker {
    /// The state before the first frame.
    pub open spec fn initial() -> SpanTracker {
        SpanTracker { in_match: false, span_start: 0, span_end: 0, running_max: 0 }
    }

    /// The span that the current run would make if it ended now.
    pub open spec fn current(self) -> Span {
        Span { start: self.span_start, end: self.span_end, max_score: self.running_max }
    }

    /// The state after a frame. A matching frame opens a run or extends the
    /// one that is open; any other frame closes it.
    pub open spec fn after(self, frame: FrameScore) -> SpanTracker {
        if matching(frame.best) {
            if self.in_match {
                SpanTracker {
                    in_match: true,
                    span_start: self.span_start,
                    span_end: frame.time,
                    running_max: higher(self.running_max, frame.best->0),
                }
            } else {
                SpanTracker {
                    in_match: true,
                    span_start: frame.time,
                    span_end: frame.time,
                    running_max: frame.best->0,
                }
            }
        } else {
            SpanTracker {
                in_match: false,
                span_start: self.span_start,
                span_end: self.span_end,
                running_max: self.running_max,
            }
        }
    }

    /// The span that a frame brings to an end: the open run, when the frame
    /// does not match.
    pub open spec fn closed_by(self, frame: FrameScore) -> Option<Span> {
        if self.in_match && !matching(frame.best) {
            Some(self.current())
        } else {
            None
        }
    }

    /// The span that the end of the stream brings to an end: the open run.
    pub open spec fn closed_at_end(self) -> Option<Span> {
        if self.in_match {
            Some(self.current())
        } else {
            None
        }
    }

    /// The state before the first frame: no run is open.
    pub fn new() -> (tracker: SpanTracker)
        ensures
            tracker == SpanTracker::initial(),
    {
        SpanTracker { in_match: false, span_start: 0, span_end: 0, running_max: 0 }
    }

    /// Takes in one frame and hands back the span that it closes, if any.
    pub fn step(&mut self, frame: &FrameScore) -> (closed: Option<Span>)
        ensures
            *final(self) == old(self).after(*frame),
            closed == old(self).closed_by(*frame),
    {
        let hit: Option<i64> = match frame.best {
            Some(score) => if score > MATCH_THRESHOLD {
                Some(score)
            } else {
                None
            },
            None => None,
        };
        match hit {
            Some(score) => {
                if !self.in_match {
                    self.span_start = frame.time;
                    self.running_max = score;
                } else if self.running_max < score {
                    self.running_max = score;
                }
                self.span_end = frame.time;
                self.in_match = true;
                None
            },
            None => {
                if self.in_match {
                    self.in_match = false;
                    Some(
                        Span {
                            start: self.span_start,
                            end: self.span_end,
                            max_score: self.running_max,
                        },
                    )
                } else {
                    None
                }
            },
        }
    }

    /// Ends the stream and hands back the span that was still open, if any.
    pub fn finish(&mut self) -> (closed: Option<Span>)
        ensures
            closed == old(self).closed_at_end(),
            !final(self).in_match,
            final(self).current() == old(self).current(),
    {
        if self.in_match {
            self.in_match = false;
            Some(Span { start: self.span_start, end: self.span_end, max_score: self.running_max })
        } else {
            None
        }
    }
}

/// The state after all of the frames.
pub open spec fn state_after(frames: Seq<FrameScore>) -> SpanTracker
    decreases frames.len(),
{
    if frames.len() == 0 {
        SpanTracker::initial()
    } else {
        state_after(frames.drop_last()).after(frames.last())
    }
}

/// The spans that the frames themselves close, in their order.
pub open spec fn closed_spans(frames: Seq<FrameScore>) -> Seq<Span>
    decreases frames.len(),
{
    if frames.len() == 0 {
        Seq::empty()
    } else {
        let before = closed_spans(frames.drop_last());
        match state_after(frames.drop_last()).closed_by(frames.last()) {
            Some(span) => before.push(span),
            None => before,
        }
    }
}

/// The spans of a whole stream: those that its frames close, then the one
/// that is open when it ends.
pub open spec fn spans_of(frames: Seq<FrameScore>) -> Seq<Span> {
    match state_after(frames).closed_at_end() {
        Some(span) => closed_spans(frames).push(span),
        None => closed_spans(frames),
    }
}

/// Scans the frames of a stream in their order and collects the spans in
/// which the face was found: one for each maximal run of matching frames.
/// When the times of the frames never go back, the spans are in the order of
/// time.
pub fn scan(frames: &Vec<FrameScore>) -> (output: VideoFacialRecognitionOutput)
    ensures
        output.spans@ == spans_of(frames@),
        output.spans.len() == runs_of(frames@).len(),
        forall|k: int|
            0 <= k < output.spans.len() ==> {
                &&& is_run(frames@, (#[trigger] runs_of(frames@)[k]).0, runs_of(frames@)[k].1)
                &&& span_covers(
                    output.spans[k],
                    frames@,
                    runs_of(frames@)[k].0,
                    runs_of(frames@)[k].1,
                )
            },
        times_ordered(frames@) ==> spans_in_order(output.spans@),
{
    let mut tracker = SpanTracker::new();
    let mut spans: Vec<Span> = Vec::new();
    let mut i: usize = 0;
    while i < frames.len()
        invariant
            i <= frames.len(),
            tracker == state_after(frames@.take(i as int)),
            spans@ == closed_spans(frames@.take(i as int)),
        decreases frames.len() - i,
    {
        proof {
            assert(frames@.take(i + 1).drop_last() =~= frames@.take(i as int));
        }
        match tracker.step(&frames[i]) {
            Some(span) => {
                spans.push(span);
            },
            None => {},
        }
        i += 1;
    }
    proof {
        assert(frames@.take(i as int) =~= frames@);
        lemma_spans_are_runs(frames@);
        if times_ordered(frames@) {
            lemma_spans_in_time_order(frames@);
        }
    }
    match tracker.finish() {
        Some(span) => {
            spans.push(span);
        },
        None => {},
    }
    VideoFacialRecognitionOutput { spans }
}

} // verus!
