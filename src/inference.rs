//! The boundary to the model runtime: tensor kinds and runtime failures.
use vstd::prelude::*;

verus! {

/// Element kinds of the tensors exchanged with a model.
#[derive(Clone, Copy, Debug, PartialEq, Eq, Structural)]
pub enum TensorType {
    Float32,
    Float64,
    Int32,
    Int64,
    Uint8,
}

/// Failures of the model runtime, each with its message.
#[derive(Debug)]
pub enum InferenceError {
    ModelLoad(String),
    SessionCreate(String),
    InvalidInput(String),
    InferenceFailed(String),
    OutputExtraction(String),
    Io(String),
}

} // verus!
