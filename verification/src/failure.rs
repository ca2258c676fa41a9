//! The ways a search can fail.

use vstd::prelude::*;
use vstd::string::StringExecFns;

verus! {

/// What kind of failure the filesystem reported.
#[derive(Clone, Copy, Debug, PartialEq, Eq, Structural)]
pub enum IoKind {
    /// There is no such file or directory.
    NotFound,
    /// The user may not read the file or directory.
    PermissionDenied,
    /// Any other failure, and any reply that does not answer the request.
    Other,
}

/// Why a search came to nothing.
#[derive(Clone, Copy, Debug, PartialEq, Eq, Structural)]
pub enum Failure {
    /// No directory from the start up to the filesystem root holds the
    /// lockfile.
    RootNotFound,
    /// The manifest could not be read.
    ManifestUnreadable,
    /// The manifest is no UTF-8 text, or no JSON document.
    ManifestUnparsable,
    /// A workspace pattern is no UTF-8 text, or no glob pattern.
    InvalidPattern,
    /// The fragment is no UTF-8 text.
    InvalidInput,
    /// The fragment names nothing between the current directory and the
    /// repository root.
    FragmentNotFound,
    /// The filesystem failed to answer.
    Io(IoKind),
}

impl Failure {
    /// The line to show the user.
    pub open spec fn message_text(self) -> Seq<char> {
        match self {
            Failure::RootNotFound => "Could not find a yarn.lock"@,
            Failure::ManifestUnreadable => "Could not read package.json"@,
            Failure::ManifestUnparsable => "Could not parse package.json"@,
            Failure::InvalidPattern =>
                "There may be an invalid unicode character in your workspace package patterns"@,
            Failure::InvalidInput => "Could not parse given directory pattern"@,
            Failure::FragmentNotFound => "Could not find given directory within project"@,
            Failure::Io(IoKind::NotFound) => "No such file or directory"@,
            Failure::Io(IoKind::PermissionDenied) => "Permission denied"@,
            Failure::Io(IoKind::Other) => "Could not read the filesystem"@,
        }
    }

    /// The line to show the user.
    pub fn message(&self) -> (r: String)
        ensures
            r@ == self.message_text(),
    {
        match self {
            Failure::RootNotFound => String::from_str("Could not find a yarn.lock"),
            Failure::ManifestUnreadable => String::from_str("Could not read package.json"),
            Failure::ManifestUnparsable => String::from_str("Could not parse package.json"),
            Failure::InvalidPattern => String::from_str(
                "There may be an invalid unicode character in your workspace package patterns",
            ),
            Failure::InvalidInput => String::from_str("Could not parse given directory pattern"),
            Failure::FragmentNotFound => String::from_str(
                "Could not find given directory within project",
            ),
            Failure::Io(IoKind::NotFound) => String::from_str("No such file or directory"),
            Failure::Io(IoKind::PermissionDenied) => String::from_str("Permission denied"),
            Failure::Io(IoKind::Other) => String::from_str("Could not read the filesystem"),
        }
    }
}

} // verus!
