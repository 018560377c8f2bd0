//! Tone-mapping operator selection.
use vstd::prelude::*;

use crate::text::same_text;

verus! {

/// The tone-mapping operator applied before display encoding.
#[derive(Debug, Clone, Copy, PartialEq, Eq, Structural)]
pub enum ToneMappingMode {
    /// ACES filmic approximation.
    AcesFilmic,
    /// Reinhard global operator.
    Reinhard,
    /// Passthrough (clamp only).
    Passthrough,
}

/// The operator that a configuration's tone-mapping name selects:
/// "reinhard" and "none" name their operators, every other name ACES.
pub open spec fn spec_tone_mode_for_name(name: Seq<char>) -> ToneMappingMode {
    if name == "reinhard"@ {
        ToneMappingMode::Reinhard
    } else if name == "none"@ {
        ToneMappingMode::Passthrough
    } else {
        ToneMappingMode::AcesFilmic
    }
}

/// The operator that a configuration's tone-mapping name selects.
pub fn tone_mode_for_name(name: &str) -> (mode: ToneMappingMode)
    ensures
        mode == spec_tone_mode_for_name(name@),
{
    if same_text(name, "reinhard") {
        ToneMappingMode::Reinhard
    } else if same_text(name, "none") {
        ToneMappingMode::Passthrough
    } else {
        ToneMappingMode::AcesFilmic
    }
}

} // verus!
