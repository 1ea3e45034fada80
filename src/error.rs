//! Errors of the controller, each naming the file it concerns.
use vstd::prelude::*;

use crate::tree::FsFault;

verus! {

/// What went wrong.
#[derive(Debug, Clone, Copy, PartialEq, Eq, Structural)]
pub enum ErrorKind {
    /// The running system is not Linux.
    UnsupportedPlatform,
    /// The active scaling driver is not one the controller knows.
    UnsupportedDriver,
    /// A file could not be read or written: missing, refused, or its CPU gone.
    Io,
    /// A file held text that is not a valid value.
    Parse,
    /// A file held bytes that are not text.
    Encoding,
}

/// An error together with the path, relative to the tree's root, of the file
/// it concerns; the path names the CPU and the attribute.
#[derive(Debug)]
pub struct CpuFreqError {
    pub kind: ErrorKind,
    pub path: String,
}

/// A failure in spec terms: its kind and the path it concerns.
pub type Failure = (ErrorKind, Seq<char>);

/// The kind of error that a file-tree fault becomes.
pub open spec fn fault_kind(f: FsFault) -> ErrorKind {
    match f {
        FsFault::Io => ErrorKind::Io,
        FsFault::Encoding => ErrorKind::Encoding,
    }
}

impl CpuFreqError {
    /// The error for `fault` on the file at `path`.
    pub fn from_fault(fault: FsFault, path: &str) -> (e: CpuFreqError)
        ensures
            e.kind == fault_kind(fault),
            e.path@ == path@,
    {
        let kind = match fault {
            FsFault::Io => ErrorKind::Io,
            FsFault::Encoding => ErrorKind::Encoding,
        };
        CpuFreqError { kind, path: String::from_str(path) }
    }

    /// An error of `kind` on the file at `path`.
    pub fn at(kind: ErrorKind, path: &str) -> (e: CpuFreqError)
        ensures
            e.kind == kind,
            e.path@ == path@,
    {
        CpuFreqError { kind, path: String::from_str(path) }
    }
}

} // verus!
