//! From the detector's raw tensors to the faces of an image: decode, order,
//! suppress, rescale.
use vstd::prelude::*;
use crate::decoder::{
    all_above, all_within_decoded_range, decode, decoded, within_decoded_range, DetectorOutput,
};
use crate::errors::ErrorKind;
use crate::models::DetectedFaceOutput;
use crate::ranking::{lemma_last_is_highest, sort_by_score, sorted_by_score};
use crate::rescale::{
    candidate_rescalable, face_rescalable, factor_for, normalize_coordinates, rescale_bbox,
    rescale_factor, rescale_landmarks, rescaled_candidate, rescaled_candidates, rescaled_faces,
};
use crate::schemas::Face;
use crate::suppression::{non_maximum_suppression, pairwise_clear, suppressed};

verus! {

/// The score that a candidate has to exceed by default: one half.
pub const SCORE_THRESHOLD: i64 = 5_000;

/// The overlap ratio above which the less confident of two candidates is
/// dropped: one half.
pub const MAX_IOU: i64 = 5_000;

/// The candidates that survive suppression, most confident first, in
/// model-input space.
pub open spec fn selected_candidates(output: DetectorOutput, threshold: int) -> Seq<Face> {
    suppressed(sorted_by_score(decoded(output, threshold)), MAX_IOU as int)
}

/// Each candidate as an output, values unchanged.
pub open spec fn outputs_of(faces: Seq<Face>) -> Seq<DetectedFaceOutput> {
    Seq::new(faces.len(), |i: int| DetectedFaceOutput::of(faces[i]))
}

/// The faces of an image of the given size: the selected candidates in the
/// pixel space of the original image.
pub open spec fn detected(output: DetectorOutput, threshold: int, width: int, height: int) -> Seq<
    DetectedFaceOutput,
> {
    rescaled_faces(
        outputs_of(selected_candidates(output, threshold)),
        rescale_factor(width, height),
    )
}

/// Decodes, orders and suppresses; what comes back is in model-input space.
fn select(outputs: &DetectorOutput, threshold: i64) -> (result: Result<Vec<Face>, ErrorKind>)
    ensures
        result is Ok <==> outputs.shaped(),
        result is Err ==> result->Err_0 == ErrorKind::TensorShapeMismatch,
        result is Ok ==> {
            &&& result->Ok_0@ == selected_candidates(*outputs, threshold as int)
            &&& pairwise_clear(result->Ok_0@, MAX_IOU as int)
            &&& all_within_decoded_range(result->Ok_0@)
            &&& all_above(result->Ok_0@, threshold as int)
            &&& forall|i: int|
                0 <= i < result->Ok_0.len() ==> decoded(*outputs, threshold as int).contains(
                    #[trigger] result->Ok_0[i],
                )
            &&& decoded(*outputs, threshold as int).len() > 0 ==> result->Ok_0.len() > 0
            &&& forall|i: int|
                0 <= i < decoded(*outputs, threshold as int).len() ==> (#[trigger] decoded(
                    *outputs,
                    threshold as int,
                )[i]).score <= result->Ok_0[0].score
        },
{
    let faces = match decode(outputs, threshold) {
        Ok(faces) => faces,
        Err(kind) => {
            return Err(kind);
        },
    };
    let ghost pool = faces@;
    let sorted = sort_by_score(faces);
    assert forall|i: int| 0 <= i < sorted.len() implies (#[trigger] sorted[i]).bbox.wf() by {
        assert(sorted@.contains(sorted[i]));
        let k = choose|k: int| 0 <= k < pool.len() && pool[k] == sorted[i];
        assert(within_decoded_range(pool[k]));
    }
    let ghost ordered = sorted@;
    let selected = non_maximum_suppression(sorted, MAX_IOU);
    proof {
        if pool.len() > 0 {
            lemma_last_is_highest(pool);
        }
        assert forall|i: int| 0 <= i < selected.len() implies pool.contains(
            #[trigger] selected[i],
        ) && within_decoded_range(selected[i]) && selected[i].score > threshold by {
            assert(ordered.contains(selected[i]));
            let k = choose|k: int| 0 <= k < pool.len() && pool[k] == selected[i];
            assert(within_decoded_range(pool[k]));
        }
    }
    Ok(selected)
}

/// Turns the detector's output for an image into its faces: the candidates
/// that score strictly above `threshold` are decoded from all three levels,
/// ordered by score, thinned by greedy suppression at `MAX_IOU`, and mapped
/// to the pixel space of the original image. The most confident face comes
/// first. Fails when a tensor has the wrong shape, and only then.
pub fn post_processing(
    outputs: &DetectorOutput,
    threshold: i64,
    orig_width: u32,
    orig_height: u32,
) -> (result: Result<Vec<DetectedFaceOutput>, ErrorKind>)
    ensures
        result is Ok <==> outputs.shaped(),
        result is Err ==> result->Err_0 == ErrorKind::TensorShapeMismatch,
        result is Ok ==> {
            &&& result->Ok_0@ == detected(
                *outputs,
                threshold as int,
                orig_width as int,
                orig_height as int,
            )
            &&& result->Ok_0.len() == selected_candidates(*outputs, threshold as int).len()
            &&& pairwise_clear(selected_candidates(*outputs, threshold as int), MAX_IOU as int)
            &&& forall|i: int|
                0 <= i < result->Ok_0.len() ==> (#[trigger] result->Ok_0[i]).score > threshold
            &&& decoded(*outputs, threshold as int).len() > 0 ==> result->Ok_0.len() > 0
            &&& forall|i: int|
                0 <= i < decoded(*outputs, threshold as int).len() ==> (#[trigger] decoded(
                    *outputs,
                    threshold as int,
                )[i]).score <= result->Ok_0[0].score
        },
{
    let selected = match select(outputs, threshold) {
        Ok(selected) => selected,
        Err(kind) => {
            return Err(kind);
        },
    };
    let mut faces: Vec<DetectedFaceOutput> = Vec::new();
    let mut i: usize = 0;
    while i < selected.len()
        invariant
            i <= selected.len(),
            faces.len() == i,
            all_within_decoded_range(selected@),
            forall|j: int| 0 <= j < i ==> faces[j] == DetectedFaceOutput::of(selected[j]),
        decreases selected.len() - i,
    {
        faces.push(DetectedFaceOutput::from_face(&selected[i]));
        i += 1;
    }
    assert(faces@ =~= outputs_of(selected@));
    assert forall|j: int| 0 <= j < faces.len() implies face_rescalable(#[trigger] faces[j]) by {
        assert(within_decoded_range(selected[j]));
    }
    normalize_coordinates(&mut faces, orig_width, orig_height);
    Ok(faces)
}

/// The faces of an image, in the pixel space of the original image.
#[derive(Debug, PartialEq, Eq)]
pub struct DetectionFaces {
    pub faces: Vec<Face>,
}

/// The selected candidates of an image of the given size, in the pixel
/// space of the original image.
pub open spec fn detected_candidates(
    output: DetectorOutput,
    threshold: int,
    width: int,
    height: int,
) -> Seq<Face> {
    rescaled_candidates(selected_candidates(output, threshold), rescale_factor(width, height))
}

impl DetectionFaces {
    /// Turns the detector's output for an image of `orig_width` by
    /// `orig_height` pixels into its faces: the candidates that score
    /// strictly above `threshold` are decoded, ordered by score, thinned by
    /// greedy suppression at `MAX_IOU` and mapped to the pixel space of the
    /// original image. The most confident face comes first. Fails when a
    /// tensor has the wrong shape, and only then.
    pub fn new(outputs: &DetectorOutput, orig_width: u32, orig_height: u32, threshold: i64) -> (result:
        Result<DetectionFaces, ErrorKind>)
        ensures
            result is Ok <==> outputs.shaped(),
            result is Err ==> result->Err_0 == ErrorKind::TensorShapeMismatch,
            result is Ok ==> {
                &&& result->Ok_0.faces@ == detected_candidates(
                    *outputs,
                    threshold as int,
                    orig_width as int,
                    orig_height as int,
                )
                &&& result->Ok_0.faces.len() == selected_candidates(*outputs, threshold as int).len()
                &&& pairwise_clear(selected_candidates(*outputs, threshold as int), MAX_IOU as int)
                &&& all_above(result->Ok_0.faces@, threshold as int)
                &&& decoded(*outputs, threshold as int).len() > 0 ==> result->Ok_0.faces.len() > 0
                &&& forall|i: int|
                    0 <= i < decoded(*outputs, threshold as int).len() ==> (#[trigger] decoded(
                        *outputs,
                        threshold as int,
                    )[i]).score <= result->Ok_0.faces[0].score
            },
    {
        match select(outputs, threshold) {
            Ok(faces) => {
                let mut faces = faces;
                assert forall|i: int| 0 <= i < faces.len() implies candidate_rescalable(
                    #[trigger] faces[i],
                ) by {
                    assert(within_decoded_range(faces[i]));
                }
                DetectionFaces::norm_coords(&mut faces, orig_width, orig_height);
                Ok(DetectionFaces { faces })
            },
            Err(kind) => Err(kind),
        }
    }

    /// Maps every candidate from the model input back to the pixel space of
    /// the original image, as `normalize_coordinates` does for outputs.
    pub fn norm_coords(faces: &mut Vec<Face>, orig_width: u32, orig_height: u32)
        requires
            forall|i: int|
                0 <= i < old(faces).len() ==> candidate_rescalable(#[trigger] old(faces)[i]),
        ensures
            final(faces)@ == rescaled_candidates(
                old(faces)@,
                rescale_factor(orig_width as int, orig_height as int),
            ),
            final(faces).len() == old(faces).len(),
    {
        let factor = factor_for(orig_width, orig_height);
        let ghost before = faces@;
        let mut i: usize = 0;
        while i < faces.len()
            invariant
                i <= faces.len(),
                faces.len() == before.len(),
                forall|j: int|
                    0 <= j < i ==> faces[j] == rescaled_candidate(before[j], factor as int),
                forall|j: int| i <= j < faces.len() ==> faces[j] == before[j],
                forall|j: int| 0 <= j < before.len() ==> candidate_rescalable(#[trigger] before[j]),
            decreases faces.len() - i,
        {
            let face = faces[i];
            assert(candidate_rescalable(before[i as int]));
            let scaled = Face {
                score: face.score,
                bbox: rescale_bbox(&face.bbox, factor),
                landmarks: rescale_landmarks(&face.landmarks, factor),
            };
            faces.set(i, scaled);
            i += 1;
        }
        assert(faces@ =~= rescaled_candidates(before, factor as int));
    }
}

} // verus!
