//! Error taxonomy of the daemon.

use vstd::prelude::*;
use vstd::string::StringExecFns;

verus! {

/// Returned by the binding encoder when a binding carries neither a key nor
/// an arrow; such a binding is rejected before any registration is attempted.
#[derive(Debug, Clone, Copy, PartialEq, Eq, Structural)]
pub struct InvalidBinding;

/// Returned by the single-instance guard when the lock is already held.
#[derive(Debug, Clone, Copy, PartialEq, Eq, Structural)]
pub struct AlreadyRunning;

/// The daemon's error taxonomy. Configuration errors and lock-acquisition
/// failures are fatal at startup; command and runtime errors are recoverable
/// and handled where they arise.
#[derive(Debug, Clone, PartialEq, Eq)]
pub enum AppError {
    /// Error related to the config file.
    Config(String),
    /// Runtime error for commands spawned out to the shell.
    Command(String),
    /// I/O error, carried as its rendered message.
    IO(String),
    /// Catch-all runtime error.
    Runtime(String),
}

/// The rendered message of an error: a fixed prefix naming the category,
/// followed by the carried detail.
pub open spec fn spec_message(e: &AppError) -> Seq<char> {
    match e {
        AppError::Config(s) => "Config error: "@ + s@,
        AppError::Command(s) => "Command error: "@ + s@,
        AppError::IO(s) => "IO Error: "@ + s@,
        AppError::Runtime(s) => "Runtime Error: "@ + s@,
    }
}

impl AppError {
    /// Render the error as a human-readable message.
    pub fn message(&self) -> (r: String)
        ensures
            r@ == spec_message(self),
    {
        match self {
            AppError::Config(s) => {
                let mut m = String::from_str("Config error: ");
                m.append(s.as_str());
                m
            },
            AppError::Command(s) => {
                let mut m = String::from_str("Command error: ");
                m.append(s.as_str());
                m
            },
            AppError::IO(s) => {
                let mut m = String::from_str("IO Error: ");
                m.append(s.as_str());
                m
            },
            AppError::Runtime(s) => {
                let mut m = String::from_str("Runtime Error: ");
                m.append(s.as_str());
                m
            },
        }
    }
}

} // verus!
