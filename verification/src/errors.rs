//! The error kinds the library distinguishes.

use vstd::prelude::*;

verus! {

/// What can go wrong in one invocation. Reading stdin failing and an empty
/// template are fatal before any dispatch; a failed execution is local to its
/// unit and never stops the others.
#[derive(Clone, Copy, PartialEq, Eq, Structural, Debug)]
pub enum XaError {
    /// Standard input could not be read.
    IoError,
    /// No command tokens were supplied, so there is nothing to execute.
    EmptyTemplateError,
    /// One unit's command failed to spawn or reported failure.
    ExecutionError,
}

impl XaError {
    /// A short human-readable description of the error.
    pub fn message(&self) -> (r: String)
        ensures
            *self == XaError::IoError ==> r@ == "unable to read from stdin"@,
            *self == XaError::EmptyTemplateError ==> r@ == "no command given"@,
            *self == XaError::ExecutionError ==> r@ == "command execution failed"@,
    {
        match self {
            XaError::IoError => String::from_str("unable to read from stdin"),
            XaError::EmptyTemplateError => String::from_str("no command given"),
            XaError::ExecutionError => String::from_str("command execution failed"),
        }
    }
}

} // verus!
