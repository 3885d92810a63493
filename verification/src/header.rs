//! The text header: its directives, its terminator, and where the payload starts.

use vstd::prelude::*;
use vstd::slice::{slice_subrange, slice_to_vec};
use crate::error::LoadError;
use crate::number::{parse_unsigned, unsigned_value};
use crate::text::{
    find_line_end, lemma_line_end_bounds, line_end, nth_token, starts_with, token, trimmed,
    trimmed_equals,
};

verus! {

/// The ASCII bytes of `format`, which opens the directive that declares the encoding.
pub open spec fn format_keyword() -> Seq<u8> {
    seq![0x66u8, 0x6f, 0x72, 0x6d, 0x61, 0x74]
}

/// The ASCII bytes of `element vertex`, which opens the directive that
/// declares the record count.
pub open spec fn vertex_keyword() -> Seq<u8> {
    seq![0x65u8, 0x6c, 0x65, 0x6d, 0x65, 0x6e, 0x74, 0x20, 0x76, 0x65, 0x72, 0x74, 0x65, 0x78]
}

/// The ASCII bytes of `end_header`, the content of the line that ends the header.
pub open spec fn terminator() -> Seq<u8> {
    seq![0x65u8, 0x6e, 0x64, 0x5f, 0x68, 0x65, 0x61, 0x64, 0x65, 0x72]
}

/// What a header declares.
#[derive(Clone, Debug, PartialEq, Eq)]
pub struct Header {
    /// The encoding string, verbatim; empty when no directive declared one.
    pub encoding: Vec<u8>,
    /// The number of records; zero when no directive declared one.
    pub count: usize,
    /// Offset of the first payload byte: one past the terminator line.
    pub payload_start: usize,
}

/// The mathematical content of a [`Header`].
pub struct HeaderView {
    /// The bytes of the encoding string.
    pub encoding: Seq<u8>,
    /// The number of records.
    pub count: nat,
    /// Offset of the first payload byte.
    pub payload_start: nat,
}

impl View for Header {
    type V = HeaderView;

    open spec fn view(&self) -> HeaderView {
        HeaderView {
            encoding: self.encoding@,
            count: self.count as nat,
            payload_start: self.payload_start as nat,
        }
    }
}

/// Whether a line ends the header: its content, without the whitespace
/// around it, is the terminator.
pub open spec fn is_terminator(line: Seq<u8>) -> bool {
    trimmed(line) == terminator()
}

/// The encoding and count in force after `line`, given those in force before
/// it; `None` when the line is a directive without a usable value.
///
/// A line that begins with `format` sets the encoding to its second token. A
/// line that begins with `element vertex` sets the count to its third token,
/// read as an unsigned integer. Any other line changes nothing.
pub open spec fn after_line(encoding: Seq<u8>, count: nat, line: Seq<u8>) -> Option<
    (Seq<u8>, nat),
> {
    if format_keyword().is_prefix_of(line) {
        match token(line, 1) {
            Some(name) => Some((name, count)),
            None => None,
        }
    } else if vertex_keyword().is_prefix_of(line) {
        match token(line, 2) {
            Some(number) => match unsigned_value(number) {
                Some(n) => Some((encoding, n)),
                None => None,
            },
            None => None,
        }
    } else {
        Some((encoding, count))
    }
}

/// The header found by reading `data` line by line from `pos` on, with
/// `encoding` and `count` in force so far; `None` when a directive is
/// unusable or `data` ends before a terminator line.
pub open spec fn scan_from(data: Seq<u8>, pos: int, encoding: Seq<u8>, count: nat) -> Option<
    HeaderView,
>
    decreases data.len() - pos,
    via scan_from_decreases
{
    if pos < 0 || pos >= data.len() {
        None
    } else {
        let end = line_end(data, pos);
        let line = data.subrange(pos, end);
        match after_line(encoding, count, line) {
            None => None,
            Some((e, c)) => if is_terminator(line) {
                Some(HeaderView { encoding: e, count: c, payload_start: end as nat })
            } else {
                scan_from(data, end, e, c)
            },
        }
    }
}

#[via_fn]
proof fn scan_from_decreases(data: Seq<u8>, pos: int, encoding: Seq<u8>, count: nat) {
    if 0 <= pos < data.len() {
        lemma_line_end_bounds(data, pos);
    }
}

/// The header of `data`: the scan starts at the first byte, with an empty
/// encoding and a count of zero.
pub open spec fn scan(data: Seq<u8>) -> Option<HeaderView> {
    scan_from(data, 0, Seq::<u8>::empty(), 0)
}

/// Where the `k`-th line of `data` starts, counting from zero; the end of
/// `data` once the lines have run out.
pub open spec fn line_start(data: Seq<u8>, k: nat) -> int
    decreases k,
{
    if k == 0 {
        0
    } else {
        line_end(data, line_start(data, (k - 1) as nat))
    }
}

/// The `k`-th line of `data`, its line feed included.
pub open spec fn line(data: Seq<u8>, k: nat) -> Seq<u8> {
    data.subrange(line_start(data, k), line_end(data, line_start(data, k)))
}

/// Whether some line of `data` is a terminator line.
pub open spec fn has_terminator(data: Seq<u8>) -> bool {
    exists|k: nat| line_start(data, k) < data.len() && is_terminator(#[trigger] line(data, k))
}

/// From the `k`-th line on, a scan that meets no terminator line gives no header.
proof fn lemma_scan_from_needs_terminator(
    data: Seq<u8>,
    k: nat,
    encoding: Seq<u8>,
    count: nat,
)
    requires
        forall|j: nat|
            j >= k && line_start(data, j) < data.len() ==> !is_terminator(#[trigger] line(data, j)),
    ensures
        scan_from(data, line_start(data, k), encoding, count) is None,
    decreases data.len() - line_start(data, k),
{
    let pos = line_start(data, k);
    if 0 <= pos < data.len() {
        lemma_line_end_bounds(data, pos);
        assert(!is_terminator(line(data, k)));
        assert(line_start(data, k + 1) == line_end(data, pos));
        match after_line(encoding, count, line(data, k)) {
            None => {},
            Some((e, c)) => {
                lemma_scan_from_needs_terminator(data, k + 1, e, c);
            },
        }
    }
}

/// Data without a terminator line has no header, whatever else it holds.
pub proof fn lemma_header_needs_terminator(data: Seq<u8>)
    requires
        !has_terminator(data),
    ensures
        scan(data) is None,
{
    lemma_scan_from_needs_terminator(data, 0, Seq::<u8>::empty(), 0);
}

/// A header ends inside the data, after at least one line.
pub proof fn lemma_scan_from_bounds(data: Seq<u8>, pos: int, encoding: Seq<u8>, count: nat)
    requires
        0 <= pos,
    ensures
        scan_from(data, pos, encoding, count) matches Some(h) ==> pos < h.payload_start
            <= data.len(),
    decreases data.len() - pos,
{
    if pos < data.len() {
        lemma_line_end_bounds(data, pos);
        let end = line_end(data, pos);
        let line = data.subrange(pos, end);
        match after_line(encoding, count, line) {
            None => {},
            Some((e, c)) => {
                if !is_terminator(line) {
                    lemma_scan_from_bounds(data, end, e, c);
                }
            },
        }
    }
}

/// Reads the header of `data`.
///
/// Fails on the first directive without a usable value, and when `data` ends
/// before a terminator line.
pub fn scan_header(data: &[u8]) -> (r: Result<Header, LoadError>)
    ensures
        match scan(data@) {
            Some(h) => r matches Ok(found) && found@ == h && h.payload_start <= data@.len(),
            None => r == Err::<Header, LoadError>(LoadError::Header),
        },
{
    let format: [u8; 6] = [0x66, 0x6f, 0x72, 0x6d, 0x61, 0x74];
    let vertex: [u8; 14] = [
        0x65,
        0x6c,
        0x65,
        0x6d,
        0x65,
        0x6e,
        0x74,
        0x20,
        0x76,
        0x65,
        0x72,
        0x74,
        0x65,
        0x78,
    ];
    let end_header: [u8; 10] = [0x65, 0x6e, 0x64, 0x5f, 0x68, 0x65, 0x61, 0x64, 0x65, 0x72];
    assert(format@ =~= format_keyword());
    assert(vertex@ =~= vertex_keyword());
    assert(end_header@ =~= terminator());
    let mut encoding: Vec<u8> = Vec::new();
    let mut count: usize = 0;
    let mut pos: usize = 0;
    assert(encoding@ =~= Seq::<u8>::empty());
    loop
        invariant
            pos <= data@.len(),
            format@ == format_keyword(),
            vertex@ == vertex_keyword(),
            end_header@ == terminator(),
            scan_from(data@, pos as int, encoding@, count as nat) == scan(data@),
        decreases data@.len() - pos,
    {
        if pos >= data.len() {
            return Err(LoadError::Header);
        }
        let end = find_line_end(data, pos);
        let line = slice_subrange(data, pos, end);
        if starts_with(line, format.as_slice()) {
            match nth_token(line, 1) {
                Some(name) => {
                    encoding = slice_to_vec(name);
                },
                None => {
                    return Err(LoadError::Header);
                },
            }
        } else if starts_with(line, vertex.as_slice()) {
            match nth_token(line, 2) {
                Some(number) => match parse_unsigned(number) {
                    Some(n) => {
                        count = n;
                    },
                    None => {
                        return Err(LoadError::Header);
                    },
                },
                None => {
                    return Err(LoadError::Header);
                },
            }
        }
        if trimmed_equals(line, end_header.as_slice()) {
            return Ok(Header { encoding, count, payload_start: end });
        }
        pos = end;
    }
}

} // verus!
