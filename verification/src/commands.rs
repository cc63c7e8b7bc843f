//! The command vocabulary of the tool, and the one decision the command
//! handling makes on its own: which directory a bulk scan walks.

use vstd::prelude::*;
use vstd::string::*;

use crate::error::VenvError;

verus! {

broadcast use vstd::string::group_string_axioms;

/// What the tool was asked to do.
#[derive(Debug, Clone, PartialEq, Eq)]
pub enum Kind {
    /// Inspect a single virtual environment.
    Venv { path: String },
    /// Search virtual environments recursively.
    Search { path: String },
    /// Scan a directory containing virtual environments.
    Venvs { path: Option<String> },
    /// List available shells.
    ListShells,
}

/// The parsed command line: the request, and an optional shell override for
/// the activation command.
#[derive(Debug, Clone, PartialEq, Eq)]
pub struct Cli {
    pub kind: Kind,
    pub shell: Option<String>,
}

/// The directory a `Venvs` scan walks: the path given on the command line,
/// else the configured environments directory, else a reported failure.
pub fn venvs_scan_path(path: Option<String>, config_venvs_dir: &Option<String>) -> (r: Result<
    String,
    VenvError,
>)
    ensures
        match r {
            Ok(p) => match path {
                Some(given) => p@ == given@,
                None => config_venvs_dir matches Some(c) && p@ == c@,
            },
            Err(e) => path is None && config_venvs_dir is None && (e matches VenvError::NotFound(
                m,
            ) && m@ == "No path provided and venvs directory doesn't exist in config"@),
        },
{
    match path {
        Some(p) => Ok(p),
        None => match config_venvs_dir {
            Some(c) => Ok(c.clone()),
            None => Err(
                VenvError::NotFound(
                    String::from_str(
                        "No path provided and venvs directory doesn't exist in config",
                    ),
                ),
            ),
        },
    }
}

} // verus!
