//! Decoding the detector's raw tensors into face candidates.
use vstd::prelude::*;
use crate::anchors::{
    anchor_count, count_anchors, decoded_bbox, decoded_landmarks, decoded_range, distance2bbox,
    distance2kps, valid_stride,
};
use crate::errors::ErrorKind;
use crate::schemas::Face;
use crate::suppression::boxes_in_range;

verus! {

/// What the detector reports at one stride, each tensor laid out anchor by
/// anchor: one score, four box distances and ten landmark distances for
/// each anchor.
#[derive(Debug)]
pub struct LevelOutput {
    pub scores: Vec<i32>,
    pub boxes: Vec<i32>,
    pub landmarks: Vec<i32>,
}

/// What the detector reports for one image.
#[derive(Debug)]
pub struct DetectorOutput {
    pub stride8: LevelOutput,
    pub stride16: LevelOutput,
    pub stride32: LevelOutput,
}

impl LevelOutput {
    /// The three tensors have the lengths that the stride calls for.
    pub open spec fn shaped_for(self, stride: int) -> bool {
        &&& self.scores.len() == anchor_count(stride)
        &&& self.boxes.len() == 4 * anchor_count(stride)
        &&& self.landmarks.len() == 10 * anchor_count(stride)
    }

    /// Tells whether the three tensors have the lengths that the stride
    /// calls for.
    pub fn has_shape(&self, stride: usize) -> (ok: bool)
        requires
            valid_stride(stride as int),
        ensures
            ok == self.shaped_for(stride as int),
    {
        let count = count_anchors(stride);
        self.scores.len() == count && self.boxes.len() == 4 * count && self.landmarks.len() == 10
            * count
    }
}

impl DetectorOutput {
    /// Every level has the shape of its stride.
    pub open spec fn shaped(self) -> bool {
        &&& self.stride8.shaped_for(8)
        &&& self.stride16.shaped_for(16)
        &&& self.stride32.shaped_for(32)
    }
}

/// The candidate that an anchor stands for, whatever its score.
pub open spec fn candidate(level: LevelOutput, stride: int, index: int) -> Face {
    Face {
        score: level.scores[index] as i64,
        bbox: decoded_bbox(index, stride, level.boxes@),
        landmarks: decoded_landmarks(index, stride, level.landmarks@),
    }
}

/// The candidates of all anchors of a level, in the order of the anchors.
pub open spec fn level_candidates(level: LevelOutput, stride: int) -> Seq<Face> {
    Seq::new(anchor_count(stride) as nat, |index: int| candidate(level, stride, index))
}

/// The test that a candidate passes when its score is strictly above the
/// threshold.
pub open spec fn above(threshold: int) -> spec_fn(Face) -> bool {
    |face: Face| face.score > threshold
}

/// The candidates of a level whose score is above the threshold, in the
/// order of their anchors.
pub open spec fn decoded_level(level: LevelOutput, stride: int, threshold: int) -> Seq<Face> {
    level_candidates(level, stride).filter(above(threshold))
}

/// The candidates of the three levels, pooled: stride 8 first, stride 32
/// last.
pub open spec fn decoded(output: DetectorOutput, threshold: int) -> Seq<Face> {
    decoded_level(output.stride8, 8, threshold) + decoded_level(output.stride16, 16, threshold)
        + decoded_level(output.stride32, 32, threshold)
}

/// Every coordinate of the candidate is where decoding can put it.
pub open spec fn within_decoded_range(face: Face) -> bool {
    &&& decoded_range(face.bbox.x1 as int)
    &&& decoded_range(face.bbox.y1 as int)
    &&& decoded_range(face.bbox.x2 as int)
    &&& decoded_range(face.bbox.y2 as int)
    &&& forall|k: int|
        0 <= k < 5 ==> decoded_range((#[trigger] face.landmarks@[k]).0 as int) && decoded_range(
            face.landmarks@[k].1 as int,
        )
}

/// Every candidate in the sequence keeps to the range of decoding.
pub open spec fn all_within_decoded_range(faces: Seq<Face>) -> bool {
    forall|i: int| 0 <= i < faces.len() ==> within_decoded_range(#[trigger] faces[i])
}

/// Every candidate in the sequence scores above the threshold.
pub open spec fn all_above(faces: Seq<Face>, threshold: int) -> bool {
    forall|i: int| 0 <= i < faces.len() ==> (#[trigger] faces[i]).score > threshold
}

/// Appends to `faces` the candidates of one level that score strictly above
/// `threshold`, in the order of their anchors. Every candidate that is
/// added keeps to the range of decoding.
pub fn decode_level(level: &LevelOutput, stride: usize, threshold: i64, faces: &mut Vec<Face>)
    requires
        valid_stride(stride as int),
        level.shaped_for(stride as int),
    ensures
        final(faces)@ == old(faces)@ + decoded_level(*level, stride as int, threshold as int),
        all_within_decoded_range(decoded_level(*level, stride as int, threshold as int)),
        all_above(decoded_level(*level, stride as int, threshold as int), threshold as int),
{
    let count = count_anchors(stride);
    let ghost before = faces@;
    let ghost all = level_candidates(*level, stride as int);
    let ghost test = above(threshold as int);
    let mut index: usize = 0;
    proof {
        assert(all.take(0).filter(test) =~= Seq::<Face>::empty()) by {
            reveal(Seq::filter);
        }
        assert(faces@ =~= before + all.take(0).filter(test));
    }
    while index < count
        invariant
            index <= count,
            count == anchor_count(stride as int),
            valid_stride(stride as int),
            level.shaped_for(stride as int),
            all == level_candidates(*level, stride as int),
            test == above(threshold as int),
            faces@ == before + all.take(index as int).filter(test),
            all_within_decoded_range(all.take(index as int).filter(test)),
            all_above(all.take(index as int).filter(test), threshold as int),
        decreases count - index,
    {
        let score = level.scores[index];
        proof {
            assert(all.take(index + 1) =~= all.take(index as int).push(all[index as int]));
            all.take(index as int).lemma_filter_push(all[index as int], test);
        }
        if score as i64 > threshold {
            let bbox = distance2bbox(index, stride, &level.boxes);
            let landmarks = distance2kps(index, stride, &level.landmarks);
            let face = Face { score: score as i64, bbox, landmarks };
            assert(face == all[index as int]);
            faces.push(face);
            assert(faces@ =~= before + all.take(index + 1).filter(test));
            assert(within_decoded_range(face));
        }
        index += 1;
    }
    assert(all.take(count as int) =~= all);
}

/// Decodes the candidates of all three levels that score strictly above
/// `threshold`, or reports that a tensor has the wrong shape.
pub fn decode(output: &DetectorOutput, threshold: i64) -> (result: Result<Vec<Face>, ErrorKind>)
    ensures
        result is Ok <==> output.shaped(),
        result is Err ==> result->Err_0 == ErrorKind::TensorShapeMismatch,
        result is Ok ==> {
            &&& result->Ok_0@ == decoded(*output, threshold as int)
            &&& all_within_decoded_range(result->Ok_0@)
            &&& all_above(result->Ok_0@, threshold as int)
            &&& boxes_in_range(result->Ok_0@)
        },
{
    if !output.stride8.has_shape(8) || !output.stride16.has_shape(16) || !output.stride32.has_shape(
        32,
    ) {
        return Err(ErrorKind::TensorShapeMismatch);
    }
    let mut faces: Vec<Face> = Vec::new();
    decode_level(&output.stride8, 8, threshold, &mut faces);
    decode_level(&output.stride16, 16, threshold, &mut faces);
    decode_level(&output.stride32, 32, threshold, &mut faces);
    assert(faces@ =~= decoded(*output, threshold as int));
    assert forall|i: int| 0 <= i < faces.len() implies within_decoded_range(#[trigger] faces[i])
        && faces[i].score > threshold && faces[i].bbox.wf() by {
        let fine = decoded_level(output.stride8, 8, threshold as int);
        let middle = decoded_level(output.stride16, 16, threshold as int);
        let coarse = decoded_level(output.stride32, 32, threshold as int);
        if i < fine.len() {
            assert(faces[i] == fine[i]);
        } else if i < fine.len() + middle.len() {
            assert(faces[i] == middle[i - fine.len()]);
        } else {
            assert(faces[i] == coarse[i - fine.len() - middle.len()]);
        }
    }
    Ok(faces)
}

} // verus!
