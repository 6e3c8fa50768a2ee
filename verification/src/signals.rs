//! Process signals and what they mean to the agent.

use vstd::prelude::*;

verus! {

/// The signals the agent listens for.
#[derive(Clone, Copy, Debug, PartialEq, Eq, Structural)]
pub enum Signal {
    SigTerm,
    SigInt,
    SigQuit,
    SigHup,
}

impl Signal {
    /// Whether the signal asks for a reload rather than a shutdown.
    pub open spec fn spec_is_reload(self) -> bool {
        self == Signal::SigHup
    }

    /// `SIGHUP` asks for a reload; `SIGTERM`, `SIGINT` and `SIGQUIT` ask
    /// for an orderly shutdown.
    pub fn is_reload(&self) -> (r: bool)
        ensures
            r == self.spec_is_reload(),
    {
        match self {
            Signal::SigHup => true,
            _ => false,
        }
    }

    /// A short name for logs.
    pub fn name(&self) -> (r: &'static str)
        ensures
            self == Signal::SigTerm ==> r@ == "SIGTERM"@,
            self == Signal::SigInt ==> r@ == "SIGINT"@,
            self == Signal::SigQuit ==> r@ == "SIGQUIT"@,
            self == Signal::SigHup ==> r@ == "SIGHUP"@,
    {
        match self {
            Signal::SigTerm => "SIGTERM",
            Signal::SigInt => "SIGINT",
            Signal::SigQuit => "SIGQUIT",
            Signal::SigHup => "SIGHUP",
        }
    }
}

/// Why the signal stream could not be set up.
#[derive(Clone, Debug, PartialEq)]
pub enum SignalWatchError {
    /// The underlying registration failed; the message says how.
    Io(String),
}

} // verus!
