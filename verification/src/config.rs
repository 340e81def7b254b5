//! The settings of the service.
use vstd::prelude::*;

verus! {

/// Where a model lies and what it is called.
#[derive(Debug)]
pub struct ModelData {
    pub model_path: String,
    pub model_name: String,
}

/// The models for search by image and by text.
#[derive(Debug)]
pub struct Search {
    pub visual: ModelData,
    pub textual: ModelData,
}

/// The models for detecting and recognising faces.
#[derive(Debug)]
pub struct FacialProcessing {
    pub detector: ModelData,
    pub recognizer: ModelData,
}

/// All models of the service.
#[derive(Debug)]
pub struct Model {
    pub facial_processing: FacialProcessing,
    pub search: Search,
}

/// Where the service listens and how much it takes in.
#[derive(Debug)]
pub struct Service {
    pub host: String,
    pub port: u16,
    pub swagger_path: String,
    pub body_limit: u32,
}

/// The settings of the service.
#[derive(Debug)]
pub struct Config {
    pub service: Service,
    pub model: Model,
}

} // verus!
