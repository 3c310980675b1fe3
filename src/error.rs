//! The ways a conversion can fail.

use vstd::prelude::*;

verus! {

/// Why a conversion or a load failed. Line numbers count from zero.
#[derive(PartialEq, Eq, Clone, Debug)]
pub enum ConversionError {
    /// A dialogue line names a speaker code that the registry lacks.
    SpeakerResolution { line: usize, code: String },
    /// A directive's arguments are malformed.
    DirectiveParse { line: usize },
    /// A line of a speaker listing is malformed or repeats a code.
    RegistryLoad { line: usize },
}

} // verus!
