//! What can go wrong while an archive is put together.

use vstd::prelude::*;
use crate::header::FieldError;

verus! {

/// The reasons for which an entry cannot be scheduled or its header cannot
/// be made.
#[derive(Clone, Copy, Debug, PartialEq, Eq, Structural)]
pub enum StreamError {
    /// The path cannot be written as bytes on this platform.
    PathEncoding,
    /// A value was refused by a header field for another reason than its
    /// length.
    HeaderField(FieldError),
    /// The file is a socket, which cannot be archived.
    Socket,
    /// The file is of a kind that has no entry type.
    UnknownFileType,
}

} // verus!
