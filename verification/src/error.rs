//! Errors of the engine's verified core.
use vstd::prelude::*;

verus! {

/// The ways in which an engine operation can fail.
#[derive(Debug, Clone, PartialEq, Eq)]
pub enum EngineError {
    /// A pixel buffer is too short for the image size it is said to have.
    BufferTooSmall,
    /// The image codec refused the data; its message.
    Codec(String),
}

} // verus!
