//! Mapping coordinates from the model input back to the original image.
use vstd::prelude::*;
use crate::fixed::COORD_LIMIT;
use crate::models::DetectedFaceOutput;
use crate::schemas::{Bbox, Face};

verus! {

/// The factor by which coordinates grow, as a count of 640ths: the longer
/// side of the original image, or 640 itself, which leaves coordinates as
/// they are, when the image is square.
pub open spec fn rescale_factor(width: int, height: int) -> int {
    if width == height {
        640
    } else if width > height {
        width
    } else {
        height
    }
}

/// A coordinate multiplied by `factor / 640`, rounded down.
pub open spec fn rescaled(value: int, factor: int) -> int {
    (value * factor) / 640
}

/// A coordinate is small enough to be rescaled.
pub open spec fn rescalable(value: int) -> bool {
    -COORD_LIMIT <= value <= COORD_LIMIT
}

/// A box with each coordinate rescaled.
pub open spec fn rescaled_bbox(bbox: Bbox, factor: int) -> Bbox {
    Bbox {
        x1: rescaled(bbox.x1 as int, factor) as i64,
        y1: rescaled(bbox.y1 as int, factor) as i64,
        x2: rescaled(bbox.x2 as int, factor) as i64,
        y2: rescaled(bbox.y2 as int, factor) as i64,
    }
}

/// A landmark with both coordinates rescaled.
pub open spec fn rescaled_point(point: (i64, i64), factor: int) -> (i64, i64) {
    (rescaled(point.0 as int, factor) as i64, rescaled(point.1 as int, factor) as i64)
}

/// Five landmarks, each rescaled.
pub open spec fn rescaled_landmarks(landmarks: [(i64, i64); 5], factor: int) -> [(i64, i64); 5] {
    [
        rescaled_point(landmarks@[0], factor),
        rescaled_point(landmarks@[1], factor),
        rescaled_point(landmarks@[2], factor),
        rescaled_point(landmarks@[3], factor),
        rescaled_point(landmarks@[4], factor),
    ]
}

/// All five landmarks are small enough to be rescaled.
pub open spec fn landmarks_rescalable(landmarks: [(i64, i64); 5]) -> bool {
    forall|k: int|
        0 <= k < 5 ==> rescalable((#[trigger] landmarks@[k]).0 as int) && rescalable(
            landmarks@[k].1 as int,
        )
}

/// A face with box and landmarks rescaled; the score stays.
pub open spec fn rescaled_face(face: DetectedFaceOutput, factor: int) -> DetectedFaceOutput {
    DetectedFaceOutput {
        score: face.score,
        bbox: rescaled_bbox(face.bbox, factor),
        landmarks: rescaled_landmarks(face.landmarks, factor),
    }
}

/// Every face, rescaled.
pub open spec fn rescaled_faces(faces: Seq<DetectedFaceOutput>, factor: int) -> Seq<
    DetectedFaceOutput,
> {
    Seq::new(faces.len(), |i: int| rescaled_face(faces[i], factor))
}

/// Box and landmarks of the face are small enough to be rescaled.
pub open spec fn face_rescalable(face: DetectedFaceOutput) -> bool {
    face.bbox.wf() && landmarks_rescalable(face.landmarks)
}

/// A candidate with box and landmarks rescaled; the score stays.
pub open spec fn rescaled_candidate(face: Face, factor: int) -> Face {
    Face {
        score: face.score,
        bbox: rescaled_bbox(face.bbox, factor),
        landmarks: rescaled_landmarks(face.landmarks, factor),
    }
}

/// Every candidate, rescaled.
pub open spec fn rescaled_candidates(faces: Seq<Face>, factor: int) -> Seq<Face> {
    Seq::new(faces.len(), |i: int| rescaled_candidate(faces[i], factor))
}

/// Box and landmarks of the candidate are small enough to be rescaled.
pub open spec fn candidate_rescalable(face: Face) -> bool {
    face.bbox.wf() && landmarks_rescalable(face.landmarks)
}

/// A rescaled coordinate fits the type of a coordinate.
pub proof fn lemma_rescaled_fits(value: int, factor: int)
    requires
        rescalable(value),
        0 <= factor <= u32::MAX,
    ensures
        i64::MIN <= rescaled(value, factor) <= i64::MAX,
        factor == 640 ==> rescaled(value, factor) == value,
{
    let product = value * factor;
    assert(-COORD_LIMIT * 0xffff_ffff <= product <= COORD_LIMIT * 0xffff_ffff)
        by (nonlinear_arith)
        requires
            -COORD_LIMIT <= value <= COORD_LIMIT,
            0 <= factor <= 0xffff_ffff,
            product == value * factor,
    ;
}

/// A square image leaves every face where it is.
pub proof fn lemma_square_image_keeps_faces(faces: Seq<DetectedFaceOutput>, side: int)
    ensures
        rescaled_faces(faces, rescale_factor(side, side)) == faces,
{
    let out = rescaled_faces(faces, rescale_factor(side, side));
    assert forall|v: int| #[trigger] rescaled(v, 640) == v by {
        assert((v * 640) / 640 == v);
    }
    assert forall|i: int| 0 <= i < faces.len() implies out[i] == faces[i] by {
        let face = faces[i];
        let marks = rescaled_landmarks(face.landmarks, 640);
        assert forall|k: int| 0 <= k < 5 implies marks@[k] == face.landmarks@[k] by {
            assert(rescaled_point(face.landmarks@[k], 640) == face.landmarks@[k]);
        }
        assert(marks@ =~= face.landmarks@);
        assert(marks == face.landmarks);
        assert(rescaled_bbox(face.bbox, 640) == face.bbox);
    }
    assert(out =~= faces);
}

/// A rescaled coordinate is the true product rounded down.
pub proof fn lemma_rescaled_rounding(value: int, factor: int)
    ensures
        rescaled(value, factor) * 640 <= value * factor < (rescaled(value, factor) + 1) * 640,
{
}

/// Rescaling keeps the order of coordinates: what lies further right or
/// further down before lies no less so after.
pub proof fn lemma_rescaled_monotone(a: int, b: int, factor: int)
    requires
        a <= b,
        0 <= factor,
    ensures
        rescaled(a, factor) <= rescaled(b, factor),
{
    assert(a * factor <= b * factor) by (nonlinear_arith)
        requires
            a <= b,
            0 <= factor,
    ;
}

/// The factor for an original image of the given size.
pub fn factor_for(orig_width: u32, orig_height: u32) -> (factor: u32)
    ensures
        factor == rescale_factor(orig_width as int, orig_height as int),
{
    if orig_width == orig_height {
        640
    } else if orig_width > orig_height {
        orig_width
    } else {
        orig_height
    }
}

/// Multiplies a coordinate by `factor / 640`, rounding down.
pub fn rescale(value: i64, factor: u32) -> (scaled: i64)
    requires
        rescalable(value as int),
    ensures
        scaled == rescaled(value as int, factor as int),
{
    proof {
        lemma_rescaled_fits(value as int, factor as int);
    }
    let product: i128 = (value as i128) * (factor as i128);
    assert(-COORD_LIMIT * 0xffff_ffff <= product <= COORD_LIMIT * 0xffff_ffff)
        by (nonlinear_arith)
        requires
            -COORD_LIMIT <= value <= COORD_LIMIT,
            0 <= factor <= 0xffff_ffff,
            product == value * factor,
    ;
    let quotient: i128 = if product >= 0 {
        product / 640
    } else {
        -((-product + 639) / 640)
    };
    quotient as i64
}

/// Rescales the four coordinates of a box.
pub fn rescale_bbox(bbox: &Bbox, factor: u32) -> (scaled: Bbox)
    requires
        bbox.wf(),
    ensures
        scaled == rescaled_bbox(*bbox, factor as int),
{
    Bbox {
        x1: rescale(bbox.x1, factor),
        y1: rescale(bbox.y1, factor),
        x2: rescale(bbox.x2, factor),
        y2: rescale(bbox.y2, factor),
    }
}

/// Rescales five landmarks.
pub fn rescale_landmarks(landmarks: &[(i64, i64); 5], factor: u32) -> (scaled: [(i64, i64); 5])
    requires
        landmarks_rescalable(*landmarks),
    ensures
        scaled == rescaled_landmarks(*landmarks, factor as int),
{
    let scaled = [
        (rescale(landmarks[0].0, factor), rescale(landmarks[0].1, factor)),
        (rescale(landmarks[1].0, factor), rescale(landmarks[1].1, factor)),
        (rescale(landmarks[2].0, factor), rescale(landmarks[2].1, factor)),
        (rescale(landmarks[3].0, factor), rescale(landmarks[3].1, factor)),
        (rescale(landmarks[4].0, factor), rescale(landmarks[4].1, factor)),
    ];
    assert(scaled@ =~= rescaled_landmarks(*landmarks, factor as int)@);
    scaled
}

/// Maps every face from the 640 by 640 model input back to the pixel space
/// of the original image: each coordinate of box and landmarks is
/// multiplied by the longer side over 640, or left as it is when the image
/// is square. This undoes a resize that kept the sides in proportion and
/// laid the image on the canvas with the top-left corners together.
pub fn normalize_coordinates(
    faces: &mut Vec<DetectedFaceOutput>,
    orig_width: u32,
    orig_height: u32,
)
    requires
        forall|i: int| 0 <= i < old(faces).len() ==> face_rescalable(#[trigger] old(faces)[i]),
    ensures
        final(faces)@ == rescaled_faces(
            old(faces)@,
            rescale_factor(orig_width as int, orig_height as int),
        ),
        final(faces).len() == old(faces).len(),
{
    let factor = factor_for(orig_width, orig_height);
    let ghost before = faces@;
    let mut i: usize = 0;
    while i < faces.len()
        invariant
            i <= faces.len(),
            faces.len() == before.len(),
            forall|j: int| 0 <= j < i ==> faces[j] == rescaled_face(before[j], factor as int),
            forall|j: int| i <= j < faces.len() ==> faces[j] == before[j],
            forall|j: int| 0 <= j < before.len() ==> face_rescalable(#[trigger] before[j]),
        decreases faces.len() - i,
    {
        let face = faces[i];
        assert(face_rescalable(before[i as int]));
        let scaled = DetectedFaceOutput {
            score: face.score,
            bbox: rescale_bbox(&face.bbox, factor),
            landmarks: rescale_landmarks(&face.landmarks, factor),
        };
        faces.set(i, scaled);
        i += 1;
    }
    assert(faces@ =~= rescaled_faces(before, factor as int));
}

} // verus!
