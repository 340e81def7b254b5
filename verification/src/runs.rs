//! What the spans of a stream tell: each is a maximal run of matching
//! frames, and together they leave no matching frame out.
use vstd::prelude::*;
use crate::models::Span;
use crate::video::{closed_spans, matching, spans_of, state_after, FrameScore, MATCH_THRESHOLD};

verus! {

/// Every frame from `first` to `last` matches.
pub open spec fn all_matching(frames: Seq<FrameScore>, first: int, last: int) -> bool {
    forall|i: int| first <= i <= last ==> matching((#[trigger] frames[i]).best)
}

/// The frames from `first` to `last` are a run of matching frames that
/// cannot be extended to the left.
pub open spec fn run_begun(frames: Seq<FrameScore>, first: int, last: int) -> bool {
    &&& 0 <= first <= last < frames.len()
    &&& all_matching(frames, first, last)
    &&& (first == 0 || !matching(frames[first - 1].best))
}

/// The frames from `first` to `last` are a maximal run of matching frames.
pub open spec fn is_run(frames: Seq<FrameScore>, first: int, last: int) -> bool {
    &&& run_begun(frames, first, last)
    &&& (last == frames.len() - 1 || !matching(frames[last + 1].best))
}

/// `top` is the highest similarity among the frames from `first` to `last`.
pub open spec fn is_peak(frames: Seq<FrameScore>, first: int, last: int, top: i64) -> bool {
    &&& forall|i: int| first <= i <= last ==> (#[trigger] frames[i]).best->0 <= top
    &&& exists|i: int| first <= i <= last && (#[trigger] frames[i]).best->0 == top
}

/// The span tells of the frames from `first` to `last`: it starts at the
/// time of the first, ends at the time of the last, and holds the highest
/// similarity among them.
pub open spec fn span_covers(span: Span, frames: Seq<FrameScore>, first: int, last: int) -> bool {
    &&& span.start == frames[first].time
    &&& span.end == frames[last].time
    &&& is_peak(frames, first, last, span.max_score)
}

/// Index of the frame with which the run that is open after the frames
/// began.
pub open spec fn run_start(frames: Seq<FrameScore>) -> int
    decreases frames.len(),
{
    if frames.len() == 0 {
        0
    } else if state_after(frames.drop_last()).in_match {
        run_start(frames.drop_last())
    } else {
        frames.len() - 1
    }
}

/// First and last frame of each run that the frames themselves close, in
/// their order.
pub open spec fn closed_runs(frames: Seq<FrameScore>) -> Seq<(int, int)>
    decreases frames.len(),
{
    if frames.len() == 0 {
        Seq::empty()
    } else {
        let before = closed_runs(frames.drop_last());
        if state_after(frames.drop_last()).in_match && !matching(frames.last().best) {
            before.push((run_start(frames.drop_last()), frames.len() - 2))
        } else {
            before
        }
    }
}

/// First and last frame of each run of a whole stream, in their order.
pub open spec fn runs_of(frames: Seq<FrameScore>) -> Seq<(int, int)> {
    if state_after(frames).in_match {
        closed_runs(frames).push((run_start(frames), frames.len() - 1))
    } else {
        closed_runs(frames)
    }
}

/// The span tells of a run that ended before the last frame: the frames
/// of `run` match, the frame before them and the frame after them do not,
/// and `span` covers them.
pub open spec fn closed_run_at(frames: Seq<FrameScore>, run: (int, int), span: Span) -> bool {
    &&& run_begun(frames, run.0, run.1)
    &&& run.1 + 1 < frames.len()
    &&& !matching(frames[run.1 + 1].best)
    &&& span_covers(span, frames, run.0, run.1)
}

/// A run is open exactly when the last frame matched, and the state then
/// tells of the frames from its start on.
pub open spec fn open_run_holds(frames: Seq<FrameScore>) -> bool {
    let state = state_after(frames);
    let n = frames.len() as int;
    &&& state.in_match <==> n > 0 && matching(frames[n - 1].best)
    &&& state.in_match ==> run_begun(frames, run_start(frames), n - 1) && span_covers(
        state.current(),
        frames,
        run_start(frames),
        n - 1,
    )
}

/// Each span closed so far tells of its run.
pub open spec fn closed_runs_hold(frames: Seq<FrameScore>) -> bool {
    &&& closed_runs(frames).len() == closed_spans(frames).len()
    &&& forall|k: int|
        0 <= k < closed_runs(frames).len() ==> closed_run_at(
            frames,
            #[trigger] closed_runs(frames)[k],
            closed_spans(frames)[k],
        )
}

/// A frame that does not match lies between any two runs, and between
/// every closed run and the open one.
pub open spec fn runs_parted(frames: Seq<FrameScore>) -> bool {
    &&& forall|j: int, k: int|
        0 <= j < k < closed_runs(frames).len() ==> (#[trigger] closed_runs(frames)[j]).1 + 1 < (
        #[trigger] closed_runs(frames)[k]).0
    &&& forall|k: int|
        0 <= k < closed_runs(frames).len() && state_after(frames).in_match ==> (
        #[trigger] closed_runs(frames)[k]).1 + 1 < run_start(frames)
}

/// Frame `i` lies in the open run or in a closed one.
pub open spec fn in_some_run(frames: Seq<FrameScore>, i: int) -> bool {
    (state_after(frames).in_match && run_start(frames) <= i) || exists|k: int|
        0 <= k < closed_runs(frames).len() && (#[trigger] closed_runs(frames)[k]).0 <= i
            <= closed_runs(frames)[k].1
}

/// Every matching frame lies in a run.
pub open spec fn matches_covered(frames: Seq<FrameScore>) -> bool {
    forall|i: int|
        0 <= i < frames.len() && matching((#[trigger] frames[i]).best) ==> in_some_run(frames, i)
}

/// What holds between two frames.
pub open spec fn tracking_holds(frames: Seq<FrameScore>) -> bool {
    &&& open_run_holds(frames)
    &&& closed_runs_hold(frames)
    &&& runs_parted(frames)
    &&& matches_covered(frames)
}

/// What a span tells of a run it tells of every stream that begins with
/// the frames of the run.
proof fn lemma_covers_extends(
    span: Span,
    shorter: Seq<FrameScore>,
    longer: Seq<FrameScore>,
    first: int,
    last: int,
)
    requires
        shorter.is_prefix_of(longer),
        run_begun(shorter, first, last),
        span_covers(span, shorter, first, last),
    ensures
        run_begun(longer, first, last),
        span_covers(span, longer, first, last),
{
    assert forall|i: int| first <= i <= last implies matching((#[trigger] longer[i]).best)
        && longer[i].best->0 <= span.max_score by {
        assert(longer[i] == shorter[i]);
    }
    let w = choose|i: int| first <= i <= last && (#[trigger] shorter[i]).best->0 == span.max_score;
    assert(longer[w] == shorter[w]);
    assert(longer[first] == shorter[first] && longer[last] == shorter[last]);
    if first > 0 {
        assert(longer[first - 1] == shorter[first - 1]);
    }
}

/// A closed run stays one when a frame is added.
proof fn lemma_closed_run_extends(
    shorter: Seq<FrameScore>,
    longer: Seq<FrameScore>,
    run: (int, int),
    span: Span,
)
    requires
        shorter.is_prefix_of(longer),
        closed_run_at(shorter, run, span),
    ensures
        closed_run_at(longer, run, span),
{
    lemma_covers_extends(span, shorter, longer, run.0, run.1);
    assert(longer[run.1 + 1] == shorter[run.1 + 1]);
}

/// After a matching frame the open run is the one that was open, grown by
/// the frame, or a new one that consists of the frame.
proof fn lemma_open_run_grows(frames: Seq<FrameScore>)
    requires
        frames.len() > 0,
        matching(frames.last().best),
        open_run_holds(frames.drop_last()),
    ensures
        open_run_holds(frames),
{
    let n = frames.len() as int;
    let before = frames.drop_last();
    let frame = frames.last();
    let earlier = state_after(before);
    let state = state_after(frames);
    let first = run_start(frames);
    let top = state.running_max;
    assert(before.is_prefix_of(frames));
    if earlier.in_match {
        lemma_covers_extends(earlier.current(), before, frames, run_start(before), n - 2);
        assert(first == run_start(before));
        assert forall|i: int| first <= i <= n - 1 implies matching((#[trigger] frames[i]).best)
            && frames[i].best->0 <= top by {}
        if frame.best->0 >= earlier.running_max {
            assert(frames[n - 1].best->0 == top);
        } else {
            let w = choose|i: int|
                first <= i <= n - 2 && (#[trigger] frames[i]).best->0 == earlier.running_max;
            assert(frames[w].best->0 == top);
        }
    } else {
        assert(first == n - 1);
        assert(frames[n - 1].best->0 == top);
        if n > 1 {
            assert(frames[n - 2] == before[n - 2]);
        }
    }
    assert(is_peak(frames, first, n - 1, top));
}

/// A frame that does not match leaves no run open.
proof fn lemma_open_run_ends(frames: Seq<FrameScore>)
    requires
        frames.len() > 0,
        !matching(frames.last().best),
    ensures
        open_run_holds(frames),
{
}

/// The closed runs stay what they were when a frame is added that closes
/// none.
proof fn lemma_closed_runs_stay(frames: Seq<FrameScore>)
    requires
        frames.len() > 0,
        closed_runs_hold(frames.drop_last()),
        !(state_after(frames.drop_last()).in_match && !matching(frames.last().best)),
    ensures
        closed_runs_hold(frames),
        closed_runs(frames) == closed_runs(frames.drop_last()),
        closed_spans(frames) == closed_spans(frames.drop_last()),
{
    let before = frames.drop_last();
    assert(before.is_prefix_of(frames));
    assert forall|k: int| 0 <= k < closed_runs(frames).len() implies closed_run_at(
        frames,
        #[trigger] closed_runs(frames)[k],
        closed_spans(frames)[k],
    ) by {
        lemma_closed_run_extends(before, frames, closed_runs(before)[k], closed_spans(before)[k]);
    }
}

/// A frame that does not match closes the open run, which joins the closed
/// ones.
proof fn lemma_closed_runs_grow(frames: Seq<FrameScore>)
    requires
        frames.len() > 0,
        closed_runs_hold(frames.drop_last()),
        open_run_holds(frames.drop_last()),
        state_after(frames.drop_last()).in_match,
        !matching(frames.last().best),
    ensures
        closed_runs_hold(frames),
        closed_runs(frames) == closed_runs(frames.drop_last()).push(
            (run_start(frames.drop_last()), frames.len() - 2),
        ),
        closed_spans(frames) == closed_spans(frames.drop_last()).push(
            state_after(frames.drop_last()).current(),
        ),
{
    let n = frames.len() as int;
    let before = frames.drop_last();
    let earlier = state_after(before);
    let closing = (run_start(before), n - 2);
    assert(before.is_prefix_of(frames));
    lemma_covers_extends(earlier.current(), before, frames, closing.0, closing.1);
    assert(closed_run_at(frames, closing, earlier.current()));
    assert forall|k: int| 0 <= k < closed_runs(frames).len() implies closed_run_at(
        frames,
        #[trigger] closed_runs(frames)[k],
        closed_spans(frames)[k],
    ) by {
        if k < closed_runs(before).len() {
            lemma_closed_run_extends(
                before,
                frames,
                closed_runs(before)[k],
                closed_spans(before)[k],
            );
        }
    }
}

/// The runs stay parted when a frame is added.
proof fn lemma_runs_stay_parted(frames: Seq<FrameScore>)
    requires
        frames.len() > 0,
        tracking_holds(frames.drop_last()),
        closed_runs_hold(frames),
    ensures
        runs_parted(frames),
{
    let n = frames.len() as int;
    let before = frames.drop_last();
    let earlier = state_after(before);
    let runs = closed_runs(frames);
    let old_runs = closed_runs(before);
    if earlier.in_match && !matching(frames.last().best) {
        lemma_closed_runs_grow(frames);
        assert forall|j: int, k: int| 0 <= j < k < runs.len() implies (#[trigger] runs[j]).1 + 1
            < (#[trigger] runs[k]).0 by {
            assert(runs[j] == old_runs[j]);
            if k < old_runs.len() {
                assert(runs[k] == old_runs[k]);
            }
        }
    } else {
        lemma_closed_runs_stay(frames);
        assert forall|k: int| 0 <= k < runs.len() && state_after(frames).in_match implies (
        #[trigger] runs[k]).1 + 1 < run_start(frames) by {
            assert(closed_run_at(before, old_runs[k], closed_spans(before)[k]));
        }
    }
}

/// Every matching frame stays in a run when a frame is added.
proof fn lemma_matches_stay_covered(frames: Seq<FrameScore>)
    requires
        frames.len() > 0,
        tracking_holds(frames.drop_last()),
        open_run_holds(frames),
    ensures
        matches_covered(frames),
{
    let n = frames.len() as int;
    let before = frames.drop_last();
    let earlier = state_after(before);
    let runs = closed_runs(frames);
    let old_runs = closed_runs(before);
    if earlier.in_match && !matching(frames.last().best) {
        lemma_closed_runs_grow(frames);
        assert forall|i: int| 0 <= i < n && matching((#[trigger] frames[i]).best) implies in_some_run(
            frames,
            i,
        ) by {
            assert(frames[i] == before[i]);
            assert(in_some_run(before, i));
            if run_start(before) <= i {
                assert(runs[old_runs.len() as int].0 <= i <= runs[old_runs.len() as int].1);
            } else {
                let k = choose|k: int|
                    0 <= k < old_runs.len() && (#[trigger] old_runs[k]).0 <= i <= old_runs[k].1;
                assert(runs[k] == old_runs[k]);
            }
        }
    } else {
        lemma_closed_runs_stay(frames);
        assert forall|i: int| 0 <= i < n && matching((#[trigger] frames[i]).best) implies in_some_run(
            frames,
            i,
        ) by {
            if i < n - 1 {
                assert(frames[i] == before[i]);
                assert(in_some_run(before, i));
            }
        }
    }
}

/// The tracking invariant holds after any frames.
pub proof fn lemma_tracking(frames: Seq<FrameScore>)
    ensures
        tracking_holds(frames),
    decreases frames.len(),
{
    if frames.len() > 0 {
        let before = frames.drop_last();
        lemma_tracking(before);
        if matching(frames.last().best) {
            lemma_open_run_grows(frames);
            lemma_closed_runs_stay(frames);
        } else {
            lemma_open_run_ends(frames);
            if state_after(before).in_match {
                lemma_closed_runs_grow(frames);
            } else {
                lemma_closed_runs_stay(frames);
            }
        }
        lemma_runs_stay_parted(frames);
        lemma_matches_stay_covered(frames);
    }
}

/// The spans of a stream are its maximal runs of matching frames: there is
/// one span for each run, in the order of the runs; each span starts at the
/// time of the first frame of its run, ends at the time of its last frame
/// and holds the highest similarity seen in it; two runs are parted by a
/// frame that does not match; and no matching frame is left out.
pub proof fn lemma_spans_are_runs(frames: Seq<FrameScore>)
    ensures
        runs_of(frames).len() == spans_of(frames).len(),
        forall|k: int|
            0 <= k < runs_of(frames).len() ==> {
                &&& is_run(frames, (#[trigger] runs_of(frames)[k]).0, runs_of(frames)[k].1)
                &&& span_covers(
                    spans_of(frames)[k],
                    frames,
                    runs_of(frames)[k].0,
                    runs_of(frames)[k].1,
                )
            },
        forall|j: int, k: int|
            0 <= j < k < runs_of(frames).len() ==> (#[trigger] runs_of(frames)[j]).1 + 1 < (
            #[trigger] runs_of(frames)[k]).0,
        forall|i: int|
            0 <= i < frames.len() && matching((#[trigger] frames[i]).best) ==> exists|k: int|
                0 <= k < runs_of(frames).len() && (#[trigger] runs_of(frames)[k]).0 <= i
                    <= runs_of(frames)[k].1,
{
    lemma_tracking(frames);
    let state = state_after(frames);
    let runs = runs_of(frames);
    let spans = spans_of(frames);
    let closed = closed_runs(frames);
    let n = frames.len() as int;
    assert forall|k: int| 0 <= k < runs.len() implies {
        &&& is_run(frames, (#[trigger] runs[k]).0, runs[k].1)
        &&& span_covers(spans[k], frames, runs[k].0, runs[k].1)
    } by {
        if k < closed.len() {
            assert(runs[k] == closed[k]);
            assert(spans[k] == closed_spans(frames)[k]);
            assert(closed_run_at(frames, closed[k], closed_spans(frames)[k]));
        }
    }
    assert forall|j: int, k: int| 0 <= j < k < runs.len() implies (#[trigger] runs[j]).1 + 1 < (
    #[trigger] runs[k]).0 by {
        assert(runs[j] == closed[j]);
        if k < closed.len() {
            assert(runs[k] == closed[k]);
        }
    }
    assert forall|i: int| 0 <= i < n && matching((#[trigger] frames[i]).best) implies exists|
        k: int,
    | 0 <= k < runs.len() && (#[trigger] runs[k]).0 <= i <= runs[k].1 by {
        assert(in_some_run(frames, i));
        if state.in_match && run_start(frames) <= i {
            assert(runs[closed.len() as int].0 <= i);
        } else {
            let k = choose|k: int| 0 <= k < closed.len() && (#[trigger] closed[k]).0 <= i
                <= closed[k].1;
            assert(runs[k] == closed[k]);
        }
    }
}

/// The times of the frames never go back.
pub open spec fn times_ordered(frames: Seq<FrameScore>) -> bool {
    forall|i: int, j: int|
        0 <= i <= j < frames.len() ==> (#[trigger] frames[i]).time <= (#[trigger] frames[j]).time
}

/// When the times of the frames never go back, no span ends before it
/// starts, and no span starts before the one before it has ended. Every
/// span holds a similarity above the threshold.
pub proof fn lemma_spans_in_time_order(frames: Seq<FrameScore>)
    requires
        times_ordered(frames),
    ensures
        spans_in_order(spans_of(frames)),
{
    lemma_spans_are_runs(frames);
    let runs = runs_of(frames);
    let spans = spans_of(frames);
    assert forall|k: int| 0 <= k < spans.len() implies (#[trigger] spans[k]).start <= spans[k].end
        && spans[k].max_score > MATCH_THRESHOLD by {
        assert(is_run(frames, runs[k].0, runs[k].1));
        let w = choose|i: int|
            runs[k].0 <= i <= runs[k].1 && (#[trigger] frames[i]).best->0 == spans[k].max_score;
        assert(matching(frames[w].best));
    }
    assert forall|j: int, k: int| 0 <= j < k < spans.len() implies (#[trigger] spans[j]).end <= (
    #[trigger] spans[k]).start by {
        assert(is_run(frames, runs[j].0, runs[j].1));
        assert(is_run(frames, runs[k].0, runs[k].1));
        assert(runs[j].1 + 1 < runs[k].0);
    }
}

/// No span ends before it starts, none starts before the one before it has
/// ended, and each holds a similarity above the threshold.
pub open spec fn spans_in_order(spans: Seq<Span>) -> bool {
    &&& forall|k: int| 0 <= k < spans.len() ==> (#[trigger] spans[k]).start <= spans[k].end
    &&& forall|j: int, k: int|
        0 <= j < k < spans.len() ==> (#[trigger] spans[j]).end <= (#[trigger] spans[k]).start
    &&& forall|k: int| 0 <= k < spans.len() ==> (#[trigger] spans[k]).max_score > MATCH_THRESHOLD
}

} // verus!
