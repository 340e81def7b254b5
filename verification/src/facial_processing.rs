//! The handles of the face models, what their tensors must look like, and
//! the joining of faces with their embeddings.
use vstd::prelude::*;
use crate::errors::{ErrorKind, FailureScope};
use crate::models::{DetectedFaceOutput, RecognizedFaceOutput};
use crate::transforms::CROP_SIZE;

verus! {

/// Number of components of a face embedding.
pub const EMBEDDING_LEN: usize = 512;

/// Where to find the model that detects faces.
#[derive(Debug)]
pub struct FaceDetector {
    pub model_path: String,
    pub model_name: String,
}

impl FaceDetector {
    /// A handle for the model at `path`, known as `name`.
    pub fn new(path: String, name: String) -> (handle: Self)
        ensures
            handle.model_path == path,
            handle.model_name == name,
    {
        FaceDetector { model_path: path, model_name: name }
    }
}

/// Where to find the model that embeds faces.
#[derive(Debug)]
pub struct FaceRecognizer {
    pub model_path: String,
    pub model_name: String,
}

impl FaceRecognizer {
    /// A handle for the model at `path`, known as `name`.
    pub fn new(path: String, name: String) -> (handle: Self)
        ensures
            handle.model_path == path,
            handle.model_name == name,
    {
        FaceRecognizer { model_path: path, model_name: name }
    }

    /// Checks the shape of a batch of crops before it goes to the model:
    /// any number of crops of three channels and 112 by 112 pixels.
    pub fn check_input(shape: (usize, usize, usize, usize)) -> (result: Result<(), ErrorKind>)
        ensures
            result is Ok <==> shape.1 == 3 && shape.2 == CROP_SIZE && shape.3 == CROP_SIZE,
            result is Err ==> result->Err_0 == ErrorKind::TensorShapeMismatch,
    {
        if shape.1 != 3 || shape.2 != CROP_SIZE as usize || shape.3 != CROP_SIZE as usize {
            Err(ErrorKind::TensorShapeMismatch)
        } else {
            Ok(())
        }
    }

    /// Takes what the model returned as an embedding, which it is when it
    /// has 512 components.
    pub fn calculate_embedding(values: Vec<i32>) -> (result: Result<Vec<i32>, ErrorKind>)
        ensures
            result is Ok <==> values.len() == EMBEDDING_LEN,
            result is Ok ==> result->Ok_0 == values,
            result is Err ==> result->Err_0 == ErrorKind::TensorShapeMismatch,
    {
        if values.len() == EMBEDDING_LEN {
            Ok(values)
        } else {
            Err(ErrorKind::TensorShapeMismatch)
        }
    }
}

/// A copy of an embedding.
fn copied(embedding: &Vec<i32>) -> (copy: Vec<i32>)
    ensures
        copy@ == embedding@,
{
    let mut copy: Vec<i32> = Vec::new();
    let mut i: usize = 0;
    while i < embedding.len()
        invariant
            i <= embedding.len(),
            copy@ == embedding@.take(i as int),
        decreases embedding.len() - i,
    {
        copy.push(embedding[i]);
        assert(copy@ =~= embedding@.take(i + 1));
        i += 1;
    }
    assert(embedding@.take(i as int) =~= embedding@);
    copy
}

/// The failure at `i` reaches further than the one face.
pub open spec fn fails_beyond_face(results: Seq<Result<Vec<i32>, ErrorKind>>, i: int) -> bool {
    results[i] is Err && results[i]->Err_0.scope_of() != FailureScope::Face
}

/// What became of face `i` is kept: its embedding, or nothing where the
/// face failed.
pub open spec fn kept(result: Result<Vec<i32>, ErrorKind>, slot: Option<Vec<i32>>) -> bool {
    match result {
        Ok(embedding) => slot is Some && slot->0@ == embedding@,
        Err(_) => slot is None,
    }
}

/// Confines the failures of single faces: a face whose failure reaches no
/// further than itself is left without an embedding and the others stay;
/// the first failure that reaches further fails the whole image.
pub fn isolate(results: &Vec<Result<Vec<i32>, ErrorKind>>) -> (out: Result<
    Vec<Option<Vec<i32>>>,
    ErrorKind,
>)
    ensures
        out is Err <==> exists|i: int| 0 <= i < results.len() && fails_beyond_face(results@, i),
        out is Err ==> exists|i: int|
            0 <= i < results.len() && fails_beyond_face(results@, i) && out->Err_0
                == results[i]->Err_0 && forall|j: int| 0 <= j < i ==> !fails_beyond_face(results@, j),
        out is Ok ==> out->Ok_0.len() == results.len() && forall|i: int|
            0 <= i < results.len() ==> kept(results[i], #[trigger] out->Ok_0[i]),
{
    let mut embeddings: Vec<Option<Vec<i32>>> = Vec::new();
    let mut i: usize = 0;
    while i < results.len()
        invariant
            i <= results.len(),
            embeddings.len() == i,
            forall|j: int| 0 <= j < i ==> !fails_beyond_face(results@, j),
            forall|j: int| 0 <= j < i ==> kept(results[j], #[trigger] embeddings[j]),
        decreases results.len() - i,
    {
        match &results[i] {
            Ok(embedding) => {
                embeddings.push(Some(copied(embedding)));
            },
            Err(kind) => {
                match kind.scope() {
                    FailureScope::Face => {
                        embeddings.push(None);
                    },
                    _ => {
                        assert(fails_beyond_face(results@, i as int));
                        return Err(*kind);
                    },
                }
            },
        }
        i += 1;
    }
    Ok(embeddings)
}

/// Number of faces that have an embedding.
pub open spec fn paired(faces: int, embeddings: int) -> int {
    if faces <= embeddings {
        faces
    } else {
        embeddings
    }
}

/// Joins each face with the embedding at the same place, as far as both
/// reach.
pub fn recognition_faces(faces: &Vec<DetectedFaceOutput>, embeddings: &Vec<Vec<i32>>) -> (out: Vec<
    RecognizedFaceOutput,
>)
    ensures
        out.len() == paired(faces.len() as int, embeddings.len() as int),
        forall|i: int|
            0 <= i < out.len() ==> {
                &&& (#[trigger] out[i]).score == faces[i].score
                &&& out[i].bbox == faces[i].bbox
                &&& out[i].landmarks == faces[i].landmarks
                &&& out[i].embedding@ == embeddings[i]@
            },
{
    let mut out: Vec<RecognizedFaceOutput> = Vec::new();
    let mut i: usize = 0;
    while i < faces.len() && i < embeddings.len()
        invariant
            i <= faces.len(),
            i <= embeddings.len(),
            out.len() == i,
            forall|j: int|
                0 <= j < i ==> {
                    &&& (#[trigger] out[j]).score == faces[j].score
                    &&& out[j].bbox == faces[j].bbox
                    &&& out[j].landmarks == faces[j].landmarks
                    &&& out[j].embedding@ == embeddings[j]@
                },
        decreases faces.len() - i,
    {
        out.push(RecognizedFaceOutput::from_mergers(&faces[i], copied(&embeddings[i])));
        i += 1;
    }
    out
}

} // verus!
