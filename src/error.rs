//! The errors that the library's operations report.
use vstd::prelude::*;

verus! {

/// What kind of file-system failure an I/O error was.
#[derive(Clone, Copy, Debug, PartialEq, Eq)]
pub enum IoKind {
    NotFound,
    PermissionDenied,
    Other,
}

/// Every failure the version manager reports to its caller.
#[derive(Clone, Debug, PartialEq, Eq)]
pub enum RnmError {
    NetworkRequestError(String),
    FileIoError(IoKind, String),
    TarGzFileError(String),
    ZipFileError(String),
    HomeDirError(String),
    InvalidNodeVersion(String),
    HtmlParseError(String),
    UnsupportedPlatform(String, String),
    UnsupportedArch(String),
    AlreadyInstalled(String),
    NotInstalled(String),
}

} // verus!
