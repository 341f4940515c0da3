//! The ways in which a step of resolution or download can fail.

use vstd::prelude::*;

verus! {

/// A failure that stays with the package or target it happened to.
#[derive(Clone, Copy, Debug, PartialEq, Eq, Structural)]
pub enum Error {
    /// A request could not be sent or answered.
    Transport,
    /// The registry answered with something that is no list of files.
    Parse,
    /// No file of a package fits the game version and loader asked for.
    NotFound,
    /// A downloaded file could not be stored.
    Write,
    /// Every attempt to reach the registry failed.
    RegistryUnavailable,
}

impl Error {
    /// Whether a registry request that ended in this failure is sent again.
    pub open spec fn retryable(self) -> bool {
        self == Error::Transport || self == Error::Parse
    }

    /// Whether a registry request that ended in this failure is sent again.
    pub fn is_retryable(&self) -> (r: bool)
        ensures
            r == self.retryable(),
    {
        match self {
            Error::Transport => true,
            Error::Parse => true,
            _ => false,
        }
    }
}

} // verus!
