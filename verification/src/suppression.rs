//! Intersection over union and greedy non-maximum suppression.
use vstd::prelude::*;
use crate::fixed::{COORD_LIMIT, IOU_EPSILON, UNITS};
use crate::schemas::{Bbox, Face};

verus! {

/// Area common to two boxes, in square units.
pub open spec fn intersection_area(a: Bbox, b: Bbox) -> int {
    a.overlap(b).area()
}

/// The divisor of the overlap ratio: the area covered by either box, plus
/// `IOU_EPSILON` so that it is never zero.
pub open spec fn union_area(a: Bbox, b: Bbox) -> int {
    a.area() + b.area() - intersection_area(a, b) + IOU_EPSILON
}

/// The overlap ratio of two boxes, held exactly: the area they share over
/// the area they cover, both in square units. The area covered counts the
/// epsilon, so it is never zero.
#[derive(Clone, Copy, Debug, PartialEq, Eq, Structural)]
pub struct Ratio {
    pub shared: i128,
    pub covered: i128,
}

/// The overlap ratio of two boxes is above `max_iou` ten-thousandths. The
/// two sides are compared as they are, with nothing rounded.
pub open spec fn overlap_exceeds(a: Bbox, b: Bbox, max_iou: int) -> bool {
    intersection_area(a, b) * UNITS > max_iou * union_area(a, b)
}

impl Ratio {
    /// A ratio between nothing and one whole, of areas that two boxes in
    /// range can have.
    pub open spec fn wf(self) -> bool {
        0 <= self.shared < self.covered <= 8 * COORD_LIMIT * COORD_LIMIT + IOU_EPSILON
    }

    /// The ratio is above `threshold` ten-thousandths.
    pub open spec fn above(self, threshold: int) -> bool {
        self.shared * UNITS > threshold * self.covered
    }

    /// The ratio is nothing: the boxes share no area.
    pub open spec fn is_zero(self) -> bool {
        self.shared == 0
    }

    /// Tells whether the ratio is above `threshold` ten-thousandths,
    /// exactly.
    pub fn exceeds(&self, threshold: i64) -> (above: bool)
        requires
            self.wf(),
        ensures
            above == self.above(threshold as int),
    {
        let ghost n = self.shared as int;
        let ghost d = self.covered as int;
        let ghost t = threshold as int;
        if threshold < 0 {
            assert(n * 10_000 > t * d) by (nonlinear_arith)
                requires
                    n >= 0,
                    d > 0,
                    t < 0,
            ;
            true
        } else if threshold >= UNITS {
            assert(n * 10_000 <= t * d) by (nonlinear_arith)
                requires
                    0 <= n < d,
                    t >= 10_000,
            ;
            false
        } else {
            assert(n * 10_000 <= 10_000 * (8 * COORD_LIMIT * COORD_LIMIT + 10) && 0 <= t * d
                <= 10_000 * (8 * COORD_LIMIT * COORD_LIMIT + 10)) by (nonlinear_arith)
                requires
                    0 <= n < d,
                    d <= 8 * COORD_LIMIT * COORD_LIMIT + 10,
                    0 <= t < 10_000,
            ;
            self.shared * (UNITS as i128) > (threshold as i128) * self.covered
        }
    }

    /// The ratio in ten-thousandths, rounded to the nearest; one half is
    /// rounded up.
    pub open spec fn rounded(self) -> int {
        (2 * self.shared * UNITS + self.covered) / (2 * self.covered)
    }

    /// The ratio in ten-thousandths, for showing: rounded to the nearest.
    pub fn to_units(&self) -> (units: i64)
        requires
            self.wf(),
        ensures
            units == self.rounded(),
            0 <= units <= UNITS,
    {
        let ghost n = self.shared as int;
        let ghost d = self.covered as int;
        assert(0 <= 2 * n * 10_000 + d <= 20_001 * (8 * COORD_LIMIT * COORD_LIMIT + 10) && 0 <= (2
            * n * 10_000 + d) / (2 * d) <= 10_000) by (nonlinear_arith)
            requires
                0 <= n < d,
                d <= 8 * COORD_LIMIT * COORD_LIMIT + 10,
        ;
        let doubled: i128 = 2 * self.shared * (UNITS as i128) + self.covered;
        (doubled / (2 * self.covered)) as i64
    }
}

/// The overlap of two boxes is the same whichever is named first.
pub proof fn lemma_overlap_symmetric(a: Bbox, b: Bbox)
    ensures
        a.overlap(b) == b.overlap(a),
        intersection_area(a, b) == intersection_area(b, a),
        union_area(a, b) == union_area(b, a),
        forall|max_iou: int| overlap_exceeds(a, b, max_iou) == overlap_exceeds(b, a, max_iou),
{
}

/// Two boxes share no more area than either encloses.
pub proof fn lemma_intersection_within(a: Bbox, b: Bbox)
    ensures
        0 <= intersection_area(a, b) <= a.area(),
        intersection_area(a, b) <= b.area(),
        0 <= intersection_area(a, b) < union_area(a, b),
{
    let o = a.overlap(b);
    if o.width() >= 0 && o.height() >= 0 {
        assert(o.width() <= a.width() && o.width() <= b.width());
        assert(o.height() <= a.height() && o.height() <= b.height());
        lemma_product_monotone(o.width(), o.height(), a.width(), a.height());
        lemma_product_monotone(o.width(), o.height(), b.width(), b.height());
    }
}

/// A product of non-negative factors grows with each factor.
pub proof fn lemma_product_monotone(w: int, h: int, w2: int, h2: int)
    by (nonlinear_arith)
    requires
        0 <= w <= w2,
        0 <= h <= h2,
    ensures
        0 <= w * h <= w2 * h2,
{
}

/// Two boxes do not meet: one ends, along some axis, where the other has
/// not yet begun.
pub open spec fn disjoint(a: Bbox, b: Bbox) -> bool {
    a.x2 <= b.x1 || b.x2 <= a.x1 || a.y2 <= b.y1 || b.y2 <= a.y1
}

/// The overlap ratio is zero exactly when the boxes share no area: when
/// they do not meet, or one of them encloses nothing. It is then above no
/// threshold that is not negative.
pub proof fn lemma_iou_zero(a: Bbox, b: Bbox)
    ensures
        disjoint(a, b) ==> intersection_area(a, b) == 0,
        intersection_area(a, b) == 0 <==> a.overlap(b).width() <= 0 || a.overlap(b).height() <= 0,
        intersection_area(a, b) == 0 ==> forall|max_iou: int|
            max_iou >= 0 ==> !overlap_exceeds(a, b, max_iou),
{
    let o = a.overlap(b);
    let w = o.width();
    let h = o.height();
    assert(o.area() == 0 <==> w <= 0 || h <= 0) by (nonlinear_arith)
        requires
            o.area() == if w < 0 || h < 0 {
                0
            } else {
                w * h
            },
    ;
    lemma_intersection_within(a, b);
    let d = union_area(a, b);
    assert forall|max_iou: int| max_iou >= 0 && intersection_area(a, b) == 0 implies !overlap_exceeds(
        a,
        b,
        max_iou,
    ) by {
        assert(max_iou * d >= 0) by (nonlinear_arith)
            requires
                max_iou >= 0,
                d > 0,
        ;
    }
}

/// A box shares all of its area with itself, so its overlap ratio with
/// itself is `area / (area + IOU_EPSILON)`. For a box of a square pixel or
/// more that is within a millionth of one whole.
pub proof fn lemma_iou_identical(b: Bbox)
    ensures
        intersection_area(b, b) == b.area(),
        union_area(b, b) == b.area() + IOU_EPSILON,
        b.area() >= UNITS * UNITS ==> (union_area(b, b) - intersection_area(b, b)) * 1_000_000
            <= union_area(b, b),
{
    assert(b.overlap(b) == b);
}

/// Area enclosed by a box, in square units.
pub fn bbox_area(bbox: &Bbox) -> (area: i128)
    requires
        bbox.wf(),
    ensures
        area == bbox.area(),
        0 <= area <= 4 * COORD_LIMIT * COORD_LIMIT,
{
    let width: i128 = bbox.x2 as i128 - bbox.x1 as i128;
    let height: i128 = bbox.y2 as i128 - bbox.y1 as i128;
    if width < 0 || height < 0 {
        return 0;
    }
    assert(width * height <= 4 * COORD_LIMIT * COORD_LIMIT && width * height >= 0) by (nonlinear_arith)
        requires
            0 <= width <= 2 * COORD_LIMIT,
            0 <= height <= 2 * COORD_LIMIT,
    ;
    width * height
}

/// Intersection over union of two boxes: the area that they share over the
/// area that they cover plus epsilon, held exactly.
pub fn iou(bbox_a: &Bbox, bbox_b: &Bbox) -> (ratio: Ratio)
    requires
        bbox_a.wf(),
        bbox_b.wf(),
    ensures
        ratio.shared == intersection_area(*bbox_a, *bbox_b),
        ratio.covered == union_area(*bbox_a, *bbox_b),
        ratio.wf(),
        forall|max_iou: int| ratio.above(max_iou) == overlap_exceeds(*bbox_a, *bbox_b, max_iou),
{
    let overlap_box = Bbox {
        x1: if bbox_a.x1 >= bbox_b.x1 { bbox_a.x1 } else { bbox_b.x1 },
        y1: if bbox_a.y1 >= bbox_b.y1 { bbox_a.y1 } else { bbox_b.y1 },
        x2: if bbox_a.x2 <= bbox_b.x2 { bbox_a.x2 } else { bbox_b.x2 },
        y2: if bbox_a.y2 <= bbox_b.y2 { bbox_a.y2 } else { bbox_b.y2 },
    };
    assert(overlap_box == bbox_a.overlap(*bbox_b));
    let overlap_area = bbox_area(&overlap_box);
    let area_a = bbox_area(bbox_a);
    let area_b = bbox_area(bbox_b);
    proof {
        lemma_intersection_within(*bbox_a, *bbox_b);
    }
    Ratio { shared: overlap_area, covered: area_a + area_b - overlap_area + IOU_EPSILON as i128 }
}

/// `face` overlaps none of the candidates in `selected` by more than
/// `max_iou`.
pub open spec fn clear_of(selected: Seq<Face>, face: Face, max_iou: int) -> bool {
    forall|k: int|
        0 <= k < selected.len() ==> !overlap_exceeds(face.bbox, (#[trigger] selected[k]).bbox, max_iou)
}

/// What greedy suppression selects from `remaining`, a sequence in ascending
/// order of score, when `selected` has been accepted already: the candidates
/// are taken from the back, and each is accepted when it is clear of all
/// accepted before it.
pub open spec fn suppress_from(remaining: Seq<Face>, selected: Seq<Face>, max_iou: int) -> Seq<
    Face,
>
    decreases remaining.len(),
{
    if remaining.len() == 0 {
        selected
    } else if clear_of(selected, remaining.last(), max_iou) {
        suppress_from(remaining.drop_last(), selected.push(remaining.last()), max_iou)
    } else {
        suppress_from(remaining.drop_last(), selected, max_iou)
    }
}

/// The candidates that greedy suppression keeps, most confident first.
pub open spec fn suppressed(sorted: Seq<Face>, max_iou: int) -> Seq<Face> {
    suppress_from(sorted, Seq::empty(), max_iou)
}

/// No two of the candidates overlap by more than `max_iou`.
pub open spec fn pairwise_clear(faces: Seq<Face>, max_iou: int) -> bool {
    forall|i: int, j: int|
        0 <= i < faces.len() && 0 <= j < faces.len() && i != j ==> !overlap_exceeds(
            (#[trigger] faces[i]).bbox,
            (#[trigger] faces[j]).bbox,
            max_iou,
        )
}

/// Every candidate's box is in range.
pub open spec fn boxes_in_range(faces: Seq<Face>) -> bool {
    forall|i: int| 0 <= i < faces.len() ==> (#[trigger] faces[i]).bbox.wf()
}

/// Greedy suppression only adds to what was selected, never lets two
/// selected candidates overlap by more than `max_iou`, and draws what it
/// adds from `remaining`.
pub proof fn lemma_suppress_from(remaining: Seq<Face>, selected: Seq<Face>, max_iou: int)
    requires
        pairwise_clear(selected, max_iou),
    ensures
        pairwise_clear(suppress_from(remaining, selected, max_iou), max_iou),
        selected.is_prefix_of(suppress_from(remaining, selected, max_iou)),
        forall|i: int|
            selected.len() <= i < suppress_from(remaining, selected, max_iou).len()
                ==> remaining.contains(#[trigger] suppress_from(remaining, selected, max_iou)[i]),
        suppress_from(remaining, selected, max_iou).len() <= selected.len() + remaining.len(),
    decreases remaining.len(),
{
    if remaining.len() > 0 {
        let face = remaining.last();
        let rest = remaining.drop_last();
        if clear_of(selected, face, max_iou) {
            let grown = selected.push(face);
            assert forall|i: int, j: int|
                0 <= i < grown.len() && 0 <= j < grown.len() && i != j implies !overlap_exceeds(
                (#[trigger] grown[i]).bbox,
                (#[trigger] grown[j]).bbox,
                max_iou,
            ) by {
                if i == selected.len() {
                    assert(grown[j] == selected[j]);
                } else if j == selected.len() {
                    assert(grown[i] == selected[i]);
                    lemma_overlap_symmetric(grown[i].bbox, grown[j].bbox);
                } else {
                    assert(grown[i] == selected[i] && grown[j] == selected[j]);
                }
            }
            lemma_suppress_from(rest, grown, max_iou);
            let out = suppress_from(rest, grown, max_iou);
            assert forall|i: int| selected.len() <= i < out.len() implies remaining.contains(
                #[trigger] out[i],
            ) by {
                if i == selected.len() {
                    assert(out[i] == grown[i]);
                    assert(remaining[remaining.len() - 1] == face);
                } else {
                    assert(rest.contains(out[i]));
                    let k = choose|k: int| 0 <= k < rest.len() && rest[k] == out[i];
                    assert(remaining[k] == out[i]);
                }
            }
        } else {
            lemma_suppress_from(rest, selected, max_iou);
            let out = suppress_from(rest, selected, max_iou);
            assert forall|i: int| selected.len() <= i < out.len() implies remaining.contains(
                #[trigger] out[i],
            ) by {
                assert(rest.contains(out[i]));
                let k = choose|k: int| 0 <= k < rest.len() && rest[k] == out[i];
                assert(remaining[k] == out[i]);
            }
        }
    }
}

/// The most confident candidate, the last of an ascending sequence, is
/// always the first one kept.
pub proof fn lemma_top_candidate_kept(sorted: Seq<Face>, max_iou: int)
    requires
        sorted.len() > 0,
    ensures
        suppressed(sorted, max_iou).len() > 0,
        suppressed(sorted, max_iou)[0] == sorted.last(),
{
    let first = Seq::<Face>::empty().push(sorted.last());
    assert(clear_of(Seq::empty(), sorted.last(), max_iou));
    assert(pairwise_clear(first, max_iou));
    lemma_suppress_from(sorted.drop_last(), first, max_iou);
    assert(suppressed(sorted, max_iou)[0] == first[0]);
}

/// A candidate that suppression drops overlaps, by more than `max_iou`, one
/// that it keeps.
pub proof fn lemma_dropped_overlaps_kept(
    remaining: Seq<Face>,
    selected: Seq<Face>,
    max_iou: int,
    at: int,
)
    requires
        0 <= at < remaining.len(),
        !suppress_from(remaining, selected, max_iou).contains(remaining[at]),
    ensures
        exists|k: int|
            0 <= k < suppress_from(remaining, selected, max_iou).len() && overlap_exceeds(
                remaining[at].bbox,
                (#[trigger] suppress_from(remaining, selected, max_iou)[k]).bbox,
                max_iou,
            ),
    decreases remaining.len(),
{
    let out = suppress_from(remaining, selected, max_iou);
    let face = remaining.last();
    let rest = remaining.drop_last();
    if clear_of(selected, face, max_iou) {
        let grown = selected.push(face);
        lemma_prefix_kept(rest, grown, max_iou);
        assert(out[selected.len() as int] == grown[selected.len() as int]);
        if at == remaining.len() - 1 {
            assert(out.contains(face));
        } else {
            assert(rest[at] == remaining[at]);
            lemma_dropped_overlaps_kept(rest, grown, max_iou, at);
        }
    } else {
        if at == remaining.len() - 1 {
            let k = choose|k: int|
                0 <= k < selected.len() && overlap_exceeds(
                    face.bbox,
                    (#[trigger] selected[k]).bbox,
                    max_iou,
                );
            lemma_prefix_kept(rest, selected, max_iou);
            assert(out[k] == selected[k]);
        } else {
            assert(rest[at] == remaining[at]);
            lemma_dropped_overlaps_kept(rest, selected, max_iou, at);
        }
    }
}

/// Suppression keeps what was selected before it went on.
pub proof fn lemma_prefix_kept(remaining: Seq<Face>, selected: Seq<Face>, max_iou: int)
    ensures
        selected.is_prefix_of(suppress_from(remaining, selected, max_iou)),
    decreases remaining.len(),
{
    if remaining.len() > 0 {
        let face = remaining.last();
        let rest = remaining.drop_last();
        if clear_of(selected, face, max_iou) {
            lemma_prefix_kept(rest, selected.push(face), max_iou);
            let out = suppress_from(rest, selected.push(face), max_iou);
            assert forall|i: int| 0 <= i < selected.len() implies selected[i] == out[i] by {
                assert(selected.push(face)[i] == out[i]);
            }
        } else {
            lemma_prefix_kept(rest, selected, max_iou);
        }
    }
}

/// Greedy non-maximum suppression over candidates in ascending order of
/// score: the most confident candidate is taken first, and each further one
/// is kept when its overlap ratio with every candidate kept so far is at
/// most `max_iou`.
pub fn non_maximum_suppression(sorted_bboxes_with_confidences: Vec<Face>, max_iou: i64) -> (selected:
    Vec<Face>)
    requires
        boxes_in_range(sorted_bboxes_with_confidences@),
    ensures
        selected@ == suppressed(sorted_bboxes_with_confidences@, max_iou as int),
        pairwise_clear(selected@, max_iou as int),
        boxes_in_range(selected@),
        forall|i: int|
            0 <= i < selected.len() ==> sorted_bboxes_with_confidences@.contains(
                #[trigger] selected[i],
            ),
        sorted_bboxes_with_confidences.len() > 0 ==> selected.len() > 0 && selected[0]
            == sorted_bboxes_with_confidences@.last(),
{
    let ghost all = sorted_bboxes_with_confidences@;
    let mut remaining = sorted_bboxes_with_confidences;
    let mut selected: Vec<Face> = Vec::new();
    while remaining.len() > 0
        invariant
            boxes_in_range(remaining@),
            boxes_in_range(selected@),
            suppress_from(remaining@, selected@, max_iou as int) == suppressed(all, max_iou as int),
        decreases remaining.len(),
    {
        let ghost before = remaining@;
        let face = remaining.pop().unwrap();
        assert(face == before.last() && remaining@ == before.drop_last());
        assert(before[before.len() - 1].bbox.wf());
        let mut clear = true;
        let mut k: usize = 0;
        while k < selected.len()
            invariant_except_break
                clear,
                k <= selected.len(),
                forall|j: int|
                    0 <= j < k ==> !overlap_exceeds(
                        face.bbox,
                        (#[trigger] selected[j]).bbox,
                        max_iou as int,
                    ),
            invariant
                face.bbox.wf(),
                boxes_in_range(selected@),
            ensures
                clear == clear_of(selected@, face, max_iou as int),
            decreases selected.len() - k,
        {
            if iou(&face.bbox, &selected[k].bbox).exceeds(max_iou) {
                clear = false;
                break ;
            }
            k += 1;
        }
        if clear {
            selected.push(face);
        }
    }
    proof {
        lemma_suppress_from(all, Seq::empty(), max_iou as int);
        if all.len() > 0 {
            lemma_top_candidate_kept(all, max_iou as int);
        }
    }
    selected
}

} // verus!
