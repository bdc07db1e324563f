//! The ways in which a run fails. None is recovered from: each ends the run.

use vstd::prelude::*;
use vstd::string::StringExecFns;
use crate::deck::ResolutionError;

verus! {

/// Why a run ended.
#[derive(Debug, Clone, Copy, PartialEq, Eq, Structural)]
pub enum Failure {
    /// A request failed, or its answer could not be decoded.
    Transport,
    /// The rasterizer, the cropper or the appender reported failure.
    ExternalTool,
    /// A cache entry is there but cannot be read as JSON.
    CacheCorruption,
    /// A deck or card document lacks a field.
    Resolution(ResolutionError),
    /// The file system refused to create, read or write an artifact.
    Io,
}

/// The words that name each failure in a diagnostic.
pub open spec fn label(failure: Failure) -> Seq<char> {
    match failure {
        Failure::Transport => "transport error"@,
        Failure::ExternalTool => "external tool error"@,
        Failure::CacheCorruption => "cache corruption"@,
        Failure::Resolution(ResolutionError::Cards) => "resolution error: no card list"@,
        Failure::Resolution(ResolutionError::Count) => "resolution error: count"@,
        Failure::Resolution(ResolutionError::Card) => "resolution error: no card document"@,
        Failure::Resolution(ResolutionError::Pack) => "resolution error: pack_code"@,
        Failure::Resolution(ResolutionError::Side) => "resolution error: side_code"@,
        Failure::Resolution(ResolutionError::Position) => "resolution error: position"@,
        Failure::Io => "i/o error"@,
    }
}

impl Failure {
    /// The words that name this failure in a diagnostic.
    pub fn describe(&self) -> (out: String)
        ensures
            out@ == label(*self),
    {
        match self {
            Failure::Transport => String::from_str("transport error"),
            Failure::ExternalTool => String::from_str("external tool error"),
            Failure::CacheCorruption => String::from_str("cache corruption"),
            Failure::Resolution(ResolutionError::Cards) => String::from_str(
                "resolution error: no card list",
            ),
            Failure::Resolution(ResolutionError::Count) => String::from_str(
                "resolution error: count",
            ),
            Failure::Resolution(ResolutionError::Card) => String::from_str(
                "resolution error: no card document",
            ),
            Failure::Resolution(ResolutionError::Pack) => String::from_str(
                "resolution error: pack_code",
            ),
            Failure::Resolution(ResolutionError::Side) => String::from_str(
                "resolution error: side_code",
            ),
            Failure::Resolution(ResolutionError::Position) => String::from_str(
                "resolution error: position",
            ),
            Failure::Io => String::from_str("i/o error"),
        }
    }
}

} // verus!
