//! The kinds of failure and how far each of them reaches.
use vstd::prelude::*;

verus! {

/// What went wrong.
#[derive(Clone, Copy, Debug, PartialEq, Eq, Structural)]
pub enum ErrorKind {
    /// A model could not be loaded.
    ModelLoadFailure,
    /// A tensor does not have the shape that the model promises.
    TensorShapeMismatch,
    /// The landmarks of a face admit no alignment.
    DegenerateAlignment,
    /// An image or a video could not be parsed.
    DecodeFailure,
    /// The request is malformed.
    InvalidUserInput,
}

/// What a failure brings down.
#[derive(Clone, Copy, Debug, PartialEq, Eq, Structural)]
pub enum FailureScope {
    /// One face is skipped; the rest of the image is processed.
    Face,
    /// One request or call is rejected.
    Request,
    /// The process cannot start.
    Process,
}

impl ErrorKind {
    /// How far a failure of this kind reaches.
    pub open spec fn scope_of(self) -> FailureScope {
        match self {
            ErrorKind::ModelLoadFailure => FailureScope::Process,
            ErrorKind::DegenerateAlignment => FailureScope::Face,
            ErrorKind::TensorShapeMismatch => FailureScope::Request,
            ErrorKind::DecodeFailure => FailureScope::Request,
            ErrorKind::InvalidUserInput => FailureScope::Request,
        }
    }

    /// How far a failure of this kind reaches: only a failure to load a
    /// model stops the process, and only a degenerate alignment is confined
    /// to one face.
    pub fn scope(&self) -> (scope: FailureScope)
        ensures
            scope == self.scope_of(),
            scope == FailureScope::Process <==> *self == ErrorKind::ModelLoadFailure,
            scope == FailureScope::Face <==> *self == ErrorKind::DegenerateAlignment,
    {
        match self {
            ErrorKind::ModelLoadFailure => FailureScope::Process,
            ErrorKind::DegenerateAlignment => FailureScope::Face,
            _ => FailureScope::Request,
        }
    }
}

} // verus!
