//! What the service hands back: faces in the pixel space of the original
//! image, their embeddings, and the spans of a video in which a face was
//! found.
use vstd::prelude::*;
use crate::schemas::{Bbox, Face};

verus! {

/// A detected face in the pixel space of the original image.
#[derive(Clone, Copy, Debug, PartialEq, Eq)]
pub struct DetectedFaceOutput {
    pub score: i64,
    pub bbox: Bbox,
    pub landmarks: [(i64, i64); 5],
}

impl DetectedFaceOutput {
    /// The output that carries a candidate's values unchanged.
    pub open spec fn of(face: Face) -> DetectedFaceOutput {
        DetectedFaceOutput { score: face.score, bbox: face.bbox, landmarks: face.landmarks }
    }

    /// Carries a candidate over as it stands.
    pub fn from_face(face: &Face) -> (out: DetectedFaceOutput)
        ensures
            out == DetectedFaceOutput::of(*face),
    {
        DetectedFaceOutput { score: face.score, bbox: face.bbox, landmarks: face.landmarks }
    }
}

/// A detected face together with its embedding.
#[derive(Debug, PartialEq, Eq)]
pub struct RecognizedFaceOutput {
    pub score: i64,
    pub bbox: Bbox,
    pub landmarks: [(i64, i64); 5],
    pub embedding: Vec<i32>,
}

impl RecognizedFaceOutput {
    /// Joins a detected face with the embedding computed for it.
    pub fn from_mergers(face: &DetectedFaceOutput, embedding: Vec<i32>) -> (out: Self)
        ensures
            out.score == face.score,
            out.bbox == face.bbox,
            out.landmarks == face.landmarks,
            out.embedding == embedding,
    {
        RecognizedFaceOutput {
            score: face.score,
            bbox: face.bbox,
            landmarks: face.landmarks,
            embedding,
        }
    }
}

/// A stretch of a video throughout which the face that is looked for was
/// found.
#[derive(Clone, Copy, Debug, PartialEq, Eq, Structural)]
pub struct Span {
    /// Time of the first frame of the stretch.
    pub start: i64,
    /// Time of its last frame.
    pub end: i64,
    /// The highest similarity seen in it.
    pub max_score: i64,
}

/// The spans found in one video, in the order of their frames.
#[derive(Debug, PartialEq, Eq)]
pub struct VideoFacialRecognitionOutput {
    pub spans: Vec<Span>,
}

} // verus!
