//! The payload encodings that a header can declare.

use vstd::prelude::*;
use crate::text::starts_with;

verus! {

/// How the payload is written, as far as the loader tells encodings apart.
#[derive(Clone, Copy, Debug, PartialEq, Eq, Structural)]
pub enum Encoding {
    /// Packed binary records: the one encoding that is decoded.
    Binary,
    /// Human-readable text: recognised, without a decoder.
    Ascii,
    /// Anything else, the empty string included.
    Unknown,
}

/// The ASCII bytes of the word `binary`.
pub open spec fn binary_prefix() -> Seq<u8> {
    seq![0x62u8, 0x69, 0x6e, 0x61, 0x72, 0x79]
}

/// The ASCII bytes of the word `ascii`.
pub open spec fn ascii_prefix() -> Seq<u8> {
    seq![0x61u8, 0x73, 0x63, 0x69, 0x69]
}

/// The encoding that an encoding string declares: decided by its prefix alone.
pub open spec fn encoding_of(name: Seq<u8>) -> Encoding {
    if binary_prefix().is_prefix_of(name) {
        Encoding::Binary
    } else if ascii_prefix().is_prefix_of(name) {
        Encoding::Ascii
    } else {
        Encoding::Unknown
    }
}

/// Classifies an encoding string.
pub fn classify(name: &[u8]) -> (e: Encoding)
    ensures
        e == encoding_of(name@),
{
    let binary: [u8; 6] = [0x62, 0x69, 0x6e, 0x61, 0x72, 0x79];
    let ascii: [u8; 5] = [0x61, 0x73, 0x63, 0x69, 0x69];
    assert(binary@ =~= binary_prefix());
    assert(ascii@ =~= ascii_prefix());
    if starts_with(name, binary.as_slice()) {
        Encoding::Binary
    } else if starts_with(name, ascii.as_slice()) {
        Encoding::Ascii
    } else {
        Encoding::Unknown
    }
}

} // verus!
