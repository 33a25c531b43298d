//! The errors of a pass.

use vstd::prelude::*;

verus! {

/// Why a pass cannot go on.
#[derive(Debug, Clone, Copy, PartialEq, Eq, Structural)]
pub enum SyncError {
    /// The host followed by the remote location is not a URL.
    Url,
    /// An href, or the part of it below the listing root, does not
    /// percent-decode to UTF-8 text.
    Encoding,
    /// An href is shorter than the path it is listed under, or that path's
    /// length falls inside one of its characters.
    OutsideRoot,
    /// An href that is to be deleted has no entry in the manifest.
    Invariant,
    /// An href that the manifest holds without a timestamp is now listed
    /// as a file.
    KindChanged,
}

/// The result of a step of a pass.
pub type AppResult<T> = Result<T, SyncError>;

} // verus!
