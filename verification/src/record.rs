//! The fixed-layout splat record and its decoding from payload bytes.

use vstd::prelude::*;
use vstd::slice::slice_subrange;
use crate::bytes::{word_at, words_at, word_from_le};
use crate::error::LoadError;

verus! {

/// Number of 32-bit words in one record.
pub const RECORD_WORDS: usize = 62;

/// Number of bytes in one record: the words are packed, without padding.
pub const RECORD_SIZE: usize = 248;

/// Byte offset of the position inside a record: the first field.
pub const POS_OFFSET: usize = 0;

/// Byte offset of the normal: after the 3 words of the position.
pub const NORMAL_OFFSET: usize = 12;

/// Byte offset of the zeroth-order colour coefficient: after the normal.
pub const F_DC_OFFSET: usize = 24;

/// Byte offset of the 45 higher-order colour coefficients.
pub const F_REST_OFFSET: usize = 36;

/// Byte offset of the opacity: after the colour coefficients.
pub const OPACITY_OFFSET: usize = 216;

/// Byte offset of the scale: after the opacity.
pub const LOG_SCALE_OFFSET: usize = 220;

/// Byte offset of the rotation: the last field, 4 words up to the record's end.
pub const ROT_OFFSET: usize = 232;

/// One point of the cloud. Every field holds the IEEE-754 bit patterns of
/// single-precision numbers, in the order in which the file stores them.
#[derive(Clone, Copy, Debug, PartialEq, Eq)]
pub struct RawSplat {
    /// Position (x, y, z).
    pub pos: [u32; 3],
    /// Normal vector.
    pub normal: [u32; 3],
    /// Zeroth-order colour coefficient.
    pub f_dc: [u32; 3],
    /// Higher-order colour coefficients.
    pub f_rest: [u32; 45],
    /// Opacity: a logit as stored, a probability once activated.
    pub opacity: u32,
    /// Scale: a logarithm as stored, a linear scale once activated.
    pub log_scale: [u32; 3],
    /// Rotation quaternion, in the component order of the file.
    pub rot: [u32; 4],
}

impl RawSplat {
    /// The 62 words of the record in layout order.
    pub open spec fn words(self) -> Seq<u32> {
        self.pos@ + self.normal@ + self.f_dc@ + self.f_rest@ + seq![self.opacity]
            + self.log_scale@ + self.rot@
    }

    /// Whether this record is the one stored in `bytes` from offset `base` on.
    pub open spec fn stored_at(self, bytes: Seq<u8>, base: int) -> bool {
        &&& self.pos@ == words_at(bytes, base + POS_OFFSET, 3)
        &&& self.normal@ == words_at(bytes, base + NORMAL_OFFSET, 3)
        &&& self.f_dc@ == words_at(bytes, base + F_DC_OFFSET, 3)
        &&& self.f_rest@ == words_at(bytes, base + F_REST_OFFSET, 45)
        &&& self.opacity == word_at(bytes, base + OPACITY_OFFSET)
        &&& self.log_scale@ == words_at(bytes, base + LOG_SCALE_OFFSET, 3)
        &&& self.rot@ == words_at(bytes, base + ROT_OFFSET, 4)
    }
}

/// The layout is packed: a record is stored at an offset exactly when its
/// words, taken in layout order, are the 62 consecutive words found there.
pub proof fn lemma_stored_is_packed(s: RawSplat, bytes: Seq<u8>, base: int)
    ensures
        s.stored_at(bytes, base) <==> s.words() == words_at(bytes, base, RECORD_WORDS as nat),
{
    let w = s.words();
    let p = words_at(bytes, base, RECORD_WORDS as nat);
    assert(w.len() == 62);
    assert forall|k: int| 0 <= k < 3 implies s.pos@[k] == w[k] by {}
    assert forall|k: int| 0 <= k < 3 implies s.normal@[k] == w[3 + k] by {}
    assert forall|k: int| 0 <= k < 3 implies s.f_dc@[k] == w[6 + k] by {}
    assert forall|k: int| 0 <= k < 45 implies s.f_rest@[k] == w[9 + k] by {}
    assert(s.opacity == w[54]);
    assert forall|k: int| 0 <= k < 3 implies s.log_scale@[k] == w[55 + k] by {}
    assert forall|k: int| 0 <= k < 4 implies s.rot@[k] == w[58 + k] by {}
    if s.stored_at(bytes, base) {
        assert(w =~= p);
    }
    if w == p {
        assert(s.pos@ =~= words_at(bytes, base + POS_OFFSET, 3)) by {
            assert forall|k: int| 0 <= k < 3 implies s.pos@[k] == word_at(
                bytes,
                base + POS_OFFSET + 4 * k,
            ) by {
                assert(p[k] == word_at(bytes, base + 4 * k));
            }
        }
        assert(s.normal@ =~= words_at(bytes, base + NORMAL_OFFSET, 3)) by {
            assert forall|k: int| 0 <= k < 3 implies s.normal@[k] == word_at(
                bytes,
                base + NORMAL_OFFSET + 4 * k,
            ) by {
                assert(p[3 + k] == word_at(bytes, base + 4 * (3 + k)));
            }
        }
        assert(s.f_dc@ =~= words_at(bytes, base + F_DC_OFFSET, 3)) by {
            assert forall|k: int| 0 <= k < 3 implies s.f_dc@[k] == word_at(
                bytes,
                base + F_DC_OFFSET + 4 * k,
            ) by {
                assert(p[6 + k] == word_at(bytes, base + 4 * (6 + k)));
            }
        }
        assert(s.f_rest@ =~= words_at(bytes, base + F_REST_OFFSET, 45)) by {
            assert forall|k: int| 0 <= k < 45 implies s.f_rest@[k] == word_at(
                bytes,
                base + F_REST_OFFSET + 4 * k,
            ) by {
                assert(p[9 + k] == word_at(bytes, base + 4 * (9 + k)));
            }
        }
        assert(s.opacity == word_at(bytes, base + OPACITY_OFFSET)) by {
            assert(p[54] == word_at(bytes, base + 4 * 54));
        }
        assert(s.log_scale@ =~= words_at(bytes, base + LOG_SCALE_OFFSET, 3)) by {
            assert forall|k: int| 0 <= k < 3 implies s.log_scale@[k] == word_at(
                bytes,
                base + LOG_SCALE_OFFSET + 4 * k,
            ) by {
                assert(p[55 + k] == word_at(bytes, base + 4 * (55 + k)));
            }
        }
        assert(s.rot@ =~= words_at(bytes, base + ROT_OFFSET, 4)) by {
            assert forall|k: int| 0 <= k < 4 implies s.rot@[k] == word_at(
                bytes,
                base + ROT_OFFSET + 4 * k,
            ) by {
                assert(p[58 + k] == word_at(bytes, base + 4 * (58 + k)));
            }
        }
    }
}

/// Two records stored at the same place are the same record.
pub proof fn lemma_stored_is_unique(a: RawSplat, b: RawSplat, bytes: Seq<u8>, base: int)
    requires
        a.stored_at(bytes, base),
        b.stored_at(bytes, base),
    ensures
        a == b,
{
    assert(a.pos =~= b.pos);
    assert(a.normal =~= b.normal);
    assert(a.f_dc =~= b.f_dc);
    assert(a.f_rest =~= b.f_rest);
    assert(a.log_scale =~= b.log_scale);
    assert(a.rot =~= b.rot);
}

/// Reads the little-endian word at byte offset `off` of a record.
fn read_word(rec: &[u8; 248], off: usize) -> (w: u32)
    requires
        off + 4 <= 248,
    ensures
        w == word_at(rec@, off as int),
{
    word_from_le(rec[off], rec[off + 1], rec[off + 2], rec[off + 3])
}

/// Reads `N` consecutive little-endian words of a record, from byte offset `off` on.
fn read_words<const N: usize>(rec: &[u8; 248], off: usize) -> (out: [u32; N])
    requires
        off + 4 * N <= 248,
    ensures
        out@ == words_at(rec@, off as int, N as nat),
{
    let mut out: [u32; N] = [0u32; N];
    let mut k: usize = 0;
    while k < N
        invariant
            off + 4 * N <= 248,
            k <= N,
            forall|j: int| 0 <= j < k ==> out@[j] == word_at(rec@, off + 4 * j),
        decreases N - k,
    {
        out[k] = read_word(rec, off + 4 * k);
        k += 1;
    }
    assert(out@ =~= words_at(rec@, off as int, N as nat));
    out
}

/// Decodes one record from its 248 bytes.
pub fn decode_record(rec: &[u8; 248]) -> (s: RawSplat)
    ensures
        s.stored_at(rec@, 0),
{
    RawSplat {
        pos: read_words::<3>(rec, POS_OFFSET),
        normal: read_words::<3>(rec, NORMAL_OFFSET),
        f_dc: read_words::<3>(rec, F_DC_OFFSET),
        f_rest: read_words::<45>(rec, F_REST_OFFSET),
        opacity: read_word(rec, OPACITY_OFFSET),
        log_scale: read_words::<3>(rec, LOG_SCALE_OFFSET),
        rot: read_words::<4>(rec, ROT_OFFSET),
    }
}

/// Splits a payload into its records of 248 bytes each.
///
/// Calls `bytemuck::cast_slice` from bytes to byte arrays of the record size.
/// Both element types have alignment 1, so the cast fails only when the input
/// length is not a multiple of 248, which the precondition excludes. The
/// result covers the same memory as the input: chunk `i` is the bytes from
/// `248 * i` up to `248 * (i + 1)`.
#[verifier::external_body]
fn record_chunks(payload: &[u8]) -> (chunks: &[[u8; 248]])
    requires
        payload@.len() % 248 == 0,
    ensures
        chunks@.len() * 248 == payload@.len(),
        forall|i: int, j: int|
            0 <= i < chunks@.len() && 0 <= j < 248 ==> (#[trigger] chunks@[i]@[j]) == payload@[248
                * i + j],
{
    bytemuck::cast_slice(payload)
}

/// Whether `splats` are the first `splats.len()` records stored in `payload`,
/// in the order of the file.
pub open spec fn records_of(splats: Seq<RawSplat>, payload: Seq<u8>) -> bool {
    forall|i: int| 0 <= i < splats.len() ==> (#[trigger] splats[i]).stored_at(payload, 248 * i)
}

/// Decodes the first `count` records of `payload`.
///
/// Fails exactly when the payload is shorter than `count` records; bytes
/// beyond the last record are ignored.
pub fn decode_records(payload: &[u8], count: usize) -> (r: Result<Vec<RawSplat>, LoadError>)
    ensures
        count * 248 <= payload@.len() ==> r is Ok,
        count * 248 > payload@.len() ==> r == Err::<Vec<RawSplat>, LoadError>(
            LoadError::TruncatedData,
        ),
        r matches Ok(splats) ==> splats@.len() == count && records_of(splats@, payload@),
{
    if count > payload.len() / RECORD_SIZE {
        return Err(LoadError::TruncatedData);
    }
    let block = slice_subrange(payload, 0, count * RECORD_SIZE);
    let chunks = record_chunks(block);
    let mut splats: Vec<RawSplat> = Vec::new();
    let mut i: usize = 0;
    while i < count
        invariant
            i <= count,
            chunks@.len() == count,
            splats@.len() == i,
            count * 248 <= payload@.len(),
            block@ == payload@.subrange(0, count * 248),
            forall|a: int, b: int|
                0 <= a < chunks@.len() && 0 <= b < 248 ==> (#[trigger] chunks@[a]@[b]) == block@[248
                    * a + b],
            records_of(splats@, payload@),
        decreases count - i,
    {
        let s = decode_record(&chunks[i]);
        proof {
            lemma_stored_at_chunk(s, chunks@[i as int]@, payload@, 248 * i);
        }
        splats.push(s);
        i += 1;
    }
    Ok(splats)
}

/// A record decoded from a copy of the bytes at `base` is the record stored at `base`.
proof fn lemma_stored_at_chunk(s: RawSplat, chunk: Seq<u8>, bytes: Seq<u8>, base: int)
    requires
        0 <= base,
        base + 248 <= bytes.len(),
        chunk.len() == 248,
        forall|j: int| 0 <= j < 248 ==> chunk[j] == bytes[base + j],
        s.stored_at(chunk, 0),
    ensures
        s.stored_at(bytes, base),
{
    assert forall|off: int| 0 <= off && off + 4 <= 248 implies word_at(chunk, off) == word_at(
        bytes,
        base + off,
    ) by {}
    assert(words_at(chunk, POS_OFFSET as int, 3) =~= words_at(bytes, base + POS_OFFSET, 3));
    assert(words_at(chunk, NORMAL_OFFSET as int, 3) =~= words_at(bytes, base + NORMAL_OFFSET, 3));
    assert(words_at(chunk, F_DC_OFFSET as int, 3) =~= words_at(bytes, base + F_DC_OFFSET, 3));
    assert(words_at(chunk, F_REST_OFFSET as int, 45) =~= words_at(bytes, base + F_REST_OFFSET, 45));
    assert(words_at(chunk, LOG_SCALE_OFFSET as int, 3) =~= words_at(
        bytes,
        base + LOG_SCALE_OFFSET,
        3,
    ));
    assert(words_at(chunk, ROT_OFFSET as int, 4) =~= words_at(bytes, base + ROT_OFFSET, 4));
}

} // verus!
