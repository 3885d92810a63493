//! The whole load: header, encoding, the records of the payload, their transform.

use vstd::prelude::*;
use vstd::slice::slice_subrange;
use crate::bytes::{word_at, words_at};
use crate::encoding::{ascii_prefix, binary_prefix, classify, encoding_of, Encoding};
use crate::error::LoadError;
use crate::header::{
    has_terminator, lemma_header_needs_terminator, lemma_scan_from_bounds, scan, scan_header,
    HeaderView,
};
use crate::record::{
    decode_records, RawSplat, F_DC_OFFSET, F_REST_OFFSET, LOG_SCALE_OFFSET,
    NORMAL_OFFSET, OPACITY_OFFSET, POS_OFFSET, ROT_OFFSET,
};
use crate::transform::{is_transform_of, transform_all};

verus! {

/// The payload of `data` under header `h`: everything after the terminator line.
pub open spec fn payload_of(data: Seq<u8>, h: HeaderView) -> Seq<u8> {
    data.subrange(h.payload_start as int, data.len() as int)
}

/// Whether `out` is the record stored in `bytes` from offset `base` on, after
/// the field transform: position, normal, colour coefficients and rotation
/// are the stored words, the opacity is the stored word sent through
/// `logistic`, each scale component the stored word sent through `exp`.
pub open spec fn loaded_at<E: Fn(u32) -> u32, L: Fn(u32) -> u32>(
    out: RawSplat,
    bytes: Seq<u8>,
    base: int,
    exp: E,
    logistic: L,
) -> bool {
    &&& out.pos@ == words_at(bytes, base + POS_OFFSET, 3)
    &&& out.normal@ == words_at(bytes, base + NORMAL_OFFSET, 3)
    &&& out.f_dc@ == words_at(bytes, base + F_DC_OFFSET, 3)
    &&& out.f_rest@ == words_at(bytes, base + F_REST_OFFSET, 45)
    &&& call_ensures(logistic, (word_at(bytes, base + OPACITY_OFFSET),), out.opacity)
    &&& forall|k: int|
        0 <= k < 3 ==> call_ensures(
            exp,
            (word_at(bytes, base + LOG_SCALE_OFFSET + 4 * k),),
            #[trigger] out.log_scale@[k],
        )
    &&& out.rot@ == words_at(bytes, base + ROT_OFFSET, 4)
}

/// Whether `splats` are the first `splats.len()` records of `payload`, each
/// transformed, in the order of the file.
pub open spec fn loaded_records<E: Fn(u32) -> u32, L: Fn(u32) -> u32>(
    splats: Seq<RawSplat>,
    payload: Seq<u8>,
    exp: E,
    logistic: L,
) -> bool {
    forall|i: int|
        0 <= i < splats.len() ==> loaded_at(#[trigger] splats[i], payload, 248 * i, exp, logistic)
}

/// Whether `r` is the outcome of loading `data` with the activations `exp`
/// and `logistic`.
///
/// The stages fail in this order: the header, the encoding, the length of
/// the payload. On success the records are as many as the header counts,
/// in the order of the file, each transformed.
pub open spec fn is_load_of<E: Fn(u32) -> u32, L: Fn(u32) -> u32>(
    r: Result<Vec<RawSplat>, LoadError>,
    data: Seq<u8>,
    exp: E,
    logistic: L,
) -> bool {
    match scan(data) {
        None => r == Err::<Vec<RawSplat>, LoadError>(LoadError::Header),
        Some(h) => match encoding_of(h.encoding) {
            Encoding::Unknown => r matches Err(LoadError::Format(name)) && name@ == h.encoding,
            Encoding::Ascii => r == Err::<Vec<RawSplat>, LoadError>(LoadError::NotImplemented),
            Encoding::Binary => if h.count * 248 > payload_of(data, h).len() {
                r == Err::<Vec<RawSplat>, LoadError>(LoadError::TruncatedData)
            } else {
                r matches Ok(splats) && splats@.len() == h.count && loaded_records(
                    splats@,
                    payload_of(data, h),
                    exp,
                    logistic,
                )
            },
        },
    }
}

/// A stored record, once transformed, is a loaded record.
pub proof fn lemma_transform_of_stored<E: Fn(u32) -> u32, L: Fn(u32) -> u32>(
    out: RawSplat,
    raw: RawSplat,
    bytes: Seq<u8>,
    base: int,
    exp: E,
    logistic: L,
)
    requires
        raw.stored_at(bytes, base),
        is_transform_of(out, raw, exp, logistic),
    ensures
        loaded_at(out, bytes, base, exp, logistic),
{
    assert forall|k: int| 0 <= k < 3 implies call_ensures(
        exp,
        (word_at(bytes, base + LOG_SCALE_OFFSET + 4 * k),),
        #[trigger] out.log_scale@[k],
    ) by {
        assert(raw.log_scale@[k] == words_at(bytes, base + LOG_SCALE_OFFSET, 3)[k]);
    }
}

/// A loaded record is the stored record, transformed: the five fields that
/// no activation reaches are bit for bit the stored ones, the opacity is
/// the stored opacity sent through `logistic`, and each scale component the
/// stored one sent through `exp`.
pub proof fn lemma_loaded_is_transform_of_stored<E: Fn(u32) -> u32, L: Fn(u32) -> u32>(
    out: RawSplat,
    raw: RawSplat,
    bytes: Seq<u8>,
    base: int,
    exp: E,
    logistic: L,
)
    requires
        raw.stored_at(bytes, base),
        loaded_at(out, bytes, base, exp, logistic),
    ensures
        is_transform_of(out, raw, exp, logistic),
{
    assert(out.pos =~= raw.pos);
    assert(out.normal =~= raw.normal);
    assert(out.f_dc =~= raw.f_dc);
    assert(out.f_rest =~= raw.f_rest);
    assert(out.rot =~= raw.rot);
    assert forall|k: int| 0 <= k < 3 implies call_ensures(
        exp,
        (raw.log_scale@[k],),
        #[trigger] out.log_scale@[k],
    ) by {
        assert(raw.log_scale@[k] == words_at(bytes, base + LOG_SCALE_OFFSET, 3)[k]);
    }
}

/// The activations reach opacity and scale only: records loaded from the same
/// place with different activations agree on every other field, bit for bit.
pub proof fn lemma_activations_reach_opacity_and_scale_only<
    E1: Fn(u32) -> u32,
    L1: Fn(u32) -> u32,
    E2: Fn(u32) -> u32,
    L2: Fn(u32) -> u32,
>(
    a: RawSplat,
    b: RawSplat,
    bytes: Seq<u8>,
    base: int,
    exp1: E1,
    logistic1: L1,
    exp2: E2,
    logistic2: L2,
)
    requires
        loaded_at(a, bytes, base, exp1, logistic1),
        loaded_at(b, bytes, base, exp2, logistic2),
    ensures
        a.pos == b.pos,
        a.normal == b.normal,
        a.f_dc == b.f_dc,
        a.f_rest == b.f_rest,
        a.rot == b.rot,
{
    assert(a.pos =~= b.pos);
    assert(a.normal =~= b.normal);
    assert(a.f_dc =~= b.f_dc);
    assert(a.f_rest =~= b.f_rest);
    assert(a.rot =~= b.rot);
}

/// A record loaded from the payload is loaded from the data, at the place
/// that the start of the payload shifts it to.
proof fn lemma_loaded_at_shift<E: Fn(u32) -> u32, L: Fn(u32) -> u32>(
    out: RawSplat,
    data: Seq<u8>,
    start: int,
    base: int,
    exp: E,
    logistic: L,
)
    requires
        0 <= start,
        0 <= base,
        start + base + 248 <= data.len(),
        loaded_at(out, data.subrange(start, data.len() as int), base, exp, logistic),
    ensures
        loaded_at(out, data, start + base, exp, logistic),
{
    let payload = data.subrange(start, data.len() as int);
    assert(words_at(payload, base + POS_OFFSET, 3) =~= words_at(data, start + base + POS_OFFSET, 3));
    assert(words_at(payload, base + NORMAL_OFFSET, 3) =~= words_at(
        data,
        start + base + NORMAL_OFFSET,
        3,
    ));
    assert(words_at(payload, base + F_DC_OFFSET, 3) =~= words_at(
        data,
        start + base + F_DC_OFFSET,
        3,
    ));
    assert(words_at(payload, base + F_REST_OFFSET, 45) =~= words_at(
        data,
        start + base + F_REST_OFFSET,
        45,
    ));
    assert(words_at(payload, base + ROT_OFFSET, 4) =~= words_at(data, start + base + ROT_OFFSET, 4));
    assert(word_at(payload, base + OPACITY_OFFSET) == word_at(data, start + base + OPACITY_OFFSET));
    assert forall|k: int| 0 <= k < 3 implies call_ensures(
        exp,
        (word_at(data, start + base + LOG_SCALE_OFFSET + 4 * k),),
        #[trigger] out.log_scale@[k],
    ) by {
        assert(word_at(payload, base + (LOG_SCALE_OFFSET + 4 * k)) == word_at(
            data,
            start + base + (LOG_SCALE_OFFSET + 4 * k),
        ));
    }
}

/// Data with a binary header and a payload of at least as many records as
/// the header counts loads: into exactly that many records, in the order of
/// the file, the `i`-th one read from 248 bytes further on than the one before.
pub proof fn lemma_load_of_whole_file<E: Fn(u32) -> u32, L: Fn(u32) -> u32>(
    r: Result<Vec<RawSplat>, LoadError>,
    data: Seq<u8>,
    h: HeaderView,
    exp: E,
    logistic: L,
)
    requires
        scan(data) == Some(h),
        binary_prefix().is_prefix_of(h.encoding),
        h.payload_start + h.count * 248 <= data.len(),
        is_load_of(r, data, exp, logistic),
    ensures
        r matches Ok(splats) && splats@.len() == h.count && forall|i: int|
            0 <= i < h.count ==> loaded_at(
                #[trigger] splats@[i],
                data,
                h.payload_start + 248 * i,
                exp,
                logistic,
            ),
{
    let splats = r->Ok_0;
    assert forall|i: int| 0 <= i < h.count implies loaded_at(
        #[trigger] splats@[i],
        data,
        h.payload_start + 248 * i,
        exp,
        logistic,
    ) by {
        lemma_loaded_at_shift(splats@[i], data, h.payload_start as int, 248 * i, exp, logistic);
    }
}

/// Data whose header declares an encoding that begins with neither `binary`
/// nor `ascii` fails with the format error, which names that encoding.
pub proof fn lemma_load_of_unknown_encoding<E: Fn(u32) -> u32, L: Fn(u32) -> u32>(
    r: Result<Vec<RawSplat>, LoadError>,
    data: Seq<u8>,
    h: HeaderView,
    exp: E,
    logistic: L,
)
    requires
        scan(data) == Some(h),
        !binary_prefix().is_prefix_of(h.encoding),
        !ascii_prefix().is_prefix_of(h.encoding),
        is_load_of(r, data, exp, logistic),
    ensures
        r matches Err(LoadError::Format(name)) && name@ == h.encoding,
{
}

/// Data whose header declares an encoding that begins with `ascii` fails as
/// not implemented, whatever follows the header.
pub proof fn lemma_load_of_ascii<E: Fn(u32) -> u32, L: Fn(u32) -> u32>(
    r: Result<Vec<RawSplat>, LoadError>,
    data: Seq<u8>,
    h: HeaderView,
    exp: E,
    logistic: L,
)
    requires
        scan(data) == Some(h),
        ascii_prefix().is_prefix_of(h.encoding),
        is_load_of(r, data, exp, logistic),
    ensures
        r == Err::<Vec<RawSplat>, LoadError>(LoadError::NotImplemented),
{
    if binary_prefix().is_prefix_of(h.encoding) {
        assert(h.encoding[0] == binary_prefix()[0]);
        assert(h.encoding[0] == ascii_prefix()[0]);
    }
}

/// Data with a binary header and a payload shorter than the records that the
/// header counts fails as truncated.
pub proof fn lemma_load_of_short_payload<E: Fn(u32) -> u32, L: Fn(u32) -> u32>(
    r: Result<Vec<RawSplat>, LoadError>,
    data: Seq<u8>,
    h: HeaderView,
    exp: E,
    logistic: L,
)
    requires
        scan(data) == Some(h),
        binary_prefix().is_prefix_of(h.encoding),
        data.len() - h.payload_start < h.count * 248,
        is_load_of(r, data, exp, logistic),
    ensures
        r == Err::<Vec<RawSplat>, LoadError>(LoadError::TruncatedData),
{
    lemma_scan_from_bounds(data, 0, Seq::<u8>::empty(), 0);
}

/// Data without a terminator line fails with the header error.
pub proof fn lemma_load_needs_terminator<E: Fn(u32) -> u32, L: Fn(u32) -> u32>(
    r: Result<Vec<RawSplat>, LoadError>,
    data: Seq<u8>,
    exp: E,
    logistic: L,
)
    requires
        !has_terminator(data),
        is_load_of(r, data, exp, logistic),
    ensures
        r == Err::<Vec<RawSplat>, LoadError>(LoadError::Header),
{
    lemma_header_needs_terminator(data);
}

/// Loads the point cloud held in `data`, the content of a file.
///
/// `exp` is the exponential and `logistic` the logistic sigmoid, both from
/// the bit pattern of a single-precision number to that of the result.
pub fn load_ply<E: Fn(u32) -> u32, L: Fn(u32) -> u32>(data: &[u8], exp: E, logistic: L) -> (r:
    Result<Vec<RawSplat>, LoadError>)
    requires
        forall|x: u32| call_requires(exp, (x,)),
        forall|x: u32| call_requires(logistic, (x,)),
    ensures
        is_load_of(r, data@, exp, logistic),
{
    let header = match scan_header(data) {
        Ok(h) => h,
        Err(_) => {
            return Err(LoadError::Header);
        },
    };
    match classify(header.encoding.as_slice()) {
        Encoding::Unknown => Err(LoadError::Format(header.encoding)),
        Encoding::Ascii => Err(LoadError::NotImplemented),
        Encoding::Binary => {
            let payload = slice_subrange(data, header.payload_start, data.len());
            match decode_records(payload, header.count) {
                Err(e) => Err(e),
                Ok(mut splats) => {
                    let ghost raw = splats@;
                    transform_all(&mut splats, &exp, &logistic);
                    proof {
                        assert forall|i: int| 0 <= i < splats@.len() implies loaded_at(
                            #[trigger] splats@[i],
                            payload@,
                            248 * i,
                            exp,
                            logistic,
                        ) by {
                            lemma_transform_of_stored(
                                splats@[i],
                                raw[i],
                                payload@,
                                248 * i,
                                exp,
                                logistic,
                            );
                        }
                    }
                    Ok(splats)
                },
            }
        },
    }
}

} // verus!
