//! Colour profiles.
use vstd::prelude::*;

verus! {

/// Static colour profile used as the grading fallback.
#[derive(Debug, Clone, Copy, PartialEq, Eq, Structural)]
pub enum ColorProfile {
    Natural,
    Vivid,
    Cinema,
}

/// The name of each profile.
pub open spec fn spec_profile_name(p: ColorProfile) -> Seq<char> {
    match p {
        ColorProfile::Natural => "natural"@,
        ColorProfile::Vivid => "vivid"@,
        ColorProfile::Cinema => "cinema"@,
    }
}

impl ColorProfile {
    pub fn as_str(&self) -> (name: &'static str)
        ensures
            name@ == spec_profile_name(*self),
    {
        match self {
            ColorProfile::Natural => "natural",
            ColorProfile::Vivid => "vivid",
            ColorProfile::Cinema => "cinema",
        }
    }
}

} // verus!
