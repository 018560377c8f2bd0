//! Inference environment set-up.
use vstd::prelude::*;

use crate::error::EngineError;

verus! {

/// Prepares the inference environment; nothing is needed before sessions are built.
pub fn init_environment() -> (r: Result<(), EngineError>)
    ensures
        r is Ok,
{
    Ok(())
}

} // verus!
