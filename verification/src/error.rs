//! Why a request failed.

use vstd::prelude::*;

verus! {

/// Why a request failed.
#[derive(Debug)]
pub enum GitAiError {
    /// The hook input cannot be turned into a checkpoint.
    PresetError(String),
    /// A document could not be read or printed.
    JsonError(String),
}

} // verus!
