//! The failures a discovery pass or a poll can meet. Each one is local to the
//! unit it affects: a process, a controller family, or a single statistic.

use vstd::prelude::*;

verus! {

/// Why a unit of work produced no value.
#[derive(Clone, Copy, Debug, PartialEq, Eq, Structural)]
pub enum Error {
    /// The process exited between enumeration and probing.
    ProcessVanished,
    /// The caller lacks the rights to read what was asked for.
    PermissionDenied,
    /// The controller is not mounted, or the process is in no cgroup of it.
    CgroupNotFound,
    /// The content read does not have the expected structure.
    MalformedRecord,
}

/// What the file primitive reports when it delivers no content.
#[derive(Clone, Copy, Debug, PartialEq, Eq, Structural)]
pub enum ReadFailure {
    /// The path does not exist.
    NotFound,
    /// The path exists and may not be read.
    PermissionDenied,
}

impl Error {
    /// The name of the failure, as text.
    pub open spec fn spec_name(self) -> Seq<char> {
        match self {
            Error::ProcessVanished => "process vanished"@,
            Error::PermissionDenied => "permission denied"@,
            Error::CgroupNotFound => "cgroup not found"@,
            Error::MalformedRecord => "malformed record"@,
        }
    }

    /// The name of the failure, as text.
    pub fn name(&self) -> (text: &'static str)
        ensures
            text@ == self.spec_name(),
    {
        match self {
            Error::ProcessVanished => "process vanished",
            Error::PermissionDenied => "permission denied",
            Error::CgroupNotFound => "cgroup not found",
            Error::MalformedRecord => "malformed record",
        }
    }
}

} // verus!
