//! The errors of volume decoding and file access.
use vstd::prelude::*;

verus! {

/// What went wrong while opening a volume or working on one of its files.
#[derive(Clone, Copy, Debug, PartialEq, Eq, Structural)]
pub enum FsError {
    /// A magic number or a fixed size does not match the format.
    FormatMismatch,
    /// The byte stream ends before a structure it should hold.
    IoError,
    /// On-disk structures contradict each other: an orphaned catalog record,
    /// a block chain that leaves the table or never ends.
    StructuralCorruption,
    /// A fork spans more than one extent.
    UnsupportedExtentSpan,
    /// No path component of that name.
    NotFound,
    /// A path component that names a file is used as a directory.
    NotADirectory,
    /// A name does not fit its length byte.
    NameTooLong,
    /// No free allocation block is left for a fork to grow into.
    VolumeFull,
}

} // verus!
