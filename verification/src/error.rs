//! The error taxonomy of the library.

use vstd::prelude::*;

verus! {

/// Why an environment could not be parsed, probed or loaded.
#[derive(Debug, PartialEq, Eq)]
pub enum VenvError {
    /// A required file (config file, manifest file, cache file) is absent;
    /// carries the offending path or name.
    NotFound(String),
    /// A file was present but its structured content is unusable;
    /// carries the offending item.
    ParseError(String),
    /// Discovery found no manifest directories at all.
    NoPackages,
    /// A read failed for some other reason; carries the offending path.
    IoError(String),
    /// The cheap modification-time probe could not reach its target,
    /// typically because the environment was deleted; carries the path.
    StaleProbeFailure(String),
}

impl Clone for VenvError {
    fn clone(&self) -> (r: Self)
        ensures
            r == *self,
    {
        match self {
            VenvError::NotFound(p) => VenvError::NotFound(p.clone()),
            VenvError::ParseError(p) => VenvError::ParseError(p.clone()),
            VenvError::NoPackages => VenvError::NoPackages,
            VenvError::IoError(p) => VenvError::IoError(p.clone()),
            VenvError::StaleProbeFailure(p) => VenvError::StaleProbeFailure(p.clone()),
        }
    }
}

impl VenvError {
    /// A short label for the error kind, for diagnostics assembled outside
    /// the library.
    pub fn kind_name(&self) -> (r: &'static str)
        ensures
            r@ == match self {
                VenvError::NotFound(_) => "not found"@,
                VenvError::ParseError(_) => "parse error"@,
                VenvError::NoPackages => "no packages"@,
                VenvError::IoError(_) => "io error"@,
                VenvError::StaleProbeFailure(_) => "stale probe failure"@,
            },
    {
        match self {
            VenvError::NotFound(_) => "not found",
            VenvError::ParseError(_) => "parse error",
            VenvError::NoPackages => "no packages",
            VenvError::IoError(_) => "io error",
            VenvError::StaleProbeFailure(_) => "stale probe failure",
        }
    }
}

} // verus!
