//! The ways in which loading a point cloud can fail.

use vstd::prelude::*;

verus! {

/// Why a byte buffer could not be loaded as a point cloud.
#[derive(Clone, Debug, PartialEq, Eq)]
pub enum LoadError {
    /// The header never reaches its terminator line, or one of its directives
    /// lacks its value or carries one that is not an unsigned integer.
    Header,
    /// The declared encoding is neither binary nor ASCII; the bytes of the
    /// offending encoding string are attached.
    Format(Vec<u8>),
    /// The declared encoding is ASCII, which is recognised but has no decoder.
    NotImplemented,
    /// The payload holds fewer bytes than the declared number of records needs.
    TruncatedData,
}

} // verus!
