//! Little-endian words and ASCII classification over raw bytes.

use vstd::prelude::*;

verus! {

/// The 32-bit word whose little-endian encoding is `b0 b1 b2 b3`.
pub open spec fn le_word(b0: u8, b1: u8, b2: u8, b3: u8) -> u32 {
    (b0 as int + 256 * (b1 as int) + 65536 * (b2 as int) + 16777216 * (b3 as int)) as u32
}

/// The little-endian word stored in `bytes` at offset `off`.
pub open spec fn word_at(bytes: Seq<u8>, off: int) -> u32
    recommends
        0 <= off,
        off + 4 <= bytes.len(),
{
    le_word(bytes[off], bytes[off + 1], bytes[off + 2], bytes[off + 3])
}

/// The `n` consecutive little-endian words stored in `bytes` from offset `off` on.
pub open spec fn words_at(bytes: Seq<u8>, off: int, n: nat) -> Seq<u32> {
    Seq::new(n, |k: int| word_at(bytes, off + 4 * k))
}

/// Assembles a word from its four little-endian bytes.
pub fn word_from_le(b0: u8, b1: u8, b2: u8, b3: u8) -> (w: u32)
    ensures
        w == le_word(b0, b1, b2, b3),
{
    let w0: u32 = b0 as u32;
    let w1: u32 = b1 as u32;
    let w2: u32 = b2 as u32;
    let w3: u32 = b3 as u32;
    w0 + 256 * w1 + 65536 * w2 + 16777216 * w3
}

} // verus!
