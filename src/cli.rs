//! The commands the tool accepts.
use vstd::prelude::*;

verus! {

/// One command of the command line.
#[derive(Clone, Debug, PartialEq, Eq)]
pub enum Commands {
    /// List remote versions, optionally only those matching a version prefix.
    LsRemote { version: Option<String> },
    /// List installed versions.
    Ls,
    /// Install a version.
    Install { version: String },
    /// Uninstall a version.
    Uninstall { version: String },
    /// Make a version the active one.
    Use { version: String },
    /// Show the active version.
    Current,
}

/// A parsed command line.
#[derive(Clone, Debug, PartialEq, Eq)]
pub struct Cli {
    pub command: Commands,
}

} // verus!
