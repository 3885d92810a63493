//! Lines, whitespace and tokens of an ASCII header, read directly from bytes.

use vstd::prelude::*;
use vstd::slice::slice_subrange;

verus! {

/// ASCII whitespace: space, tab, line feed, vertical tab, form feed, carriage return.
pub open spec fn is_space(b: u8) -> bool {
    b == 0x20 || (0x09 <= b && b <= 0x0d)
}

/// Executable form of [`is_space`].
pub fn byte_is_space(b: u8) -> (r: bool)
    ensures
        r == is_space(b),
{
    b == 0x20 || (0x09 <= b && b <= 0x0d)
}

/// Where the line that starts at `start` ends: one past its line feed, or at
/// the end of `data` when no line feed follows.
pub open spec fn line_end(data: Seq<u8>, start: int) -> int
    decreases data.len() - start,
{
    if start < 0 || start >= data.len() {
        data.len() as int
    } else if data[start] == 0x0a {
        start + 1
    } else {
        line_end(data, start + 1)
    }
}

/// A line that starts inside `data` ends after its start and inside `data`.
pub proof fn lemma_line_end_bounds(data: Seq<u8>, start: int)
    requires
        0 <= start < data.len(),
    ensures
        start < line_end(data, start) <= data.len(),
    decreases data.len() - start,
{
    if data[start] != 0x0a {
        if start + 1 < data.len() {
            lemma_line_end_bounds(data, start + 1);
        } else {
            assert(line_end(data, start + 1) == data.len());
        }
    }
}

/// Finds the end of the line that starts at `start`.
pub fn find_line_end(data: &[u8], start: usize) -> (end: usize)
    requires
        start <= data@.len(),
    ensures
        end == line_end(data@, start as int),
        start <= end <= data@.len(),
        start < data@.len() ==> start < end,
{
    let mut i: usize = start;
    while i < data.len() && data[i] != 0x0a
        invariant
            start <= i <= data@.len(),
            line_end(data@, i as int) == line_end(data@, start as int),
        decreases data@.len() - i,
    {
        i += 1;
    }
    if i < data.len() {
        i + 1
    } else {
        i
    }
}

/// The first index at or after `i` that holds no whitespace, or the end of `s`.
pub open spec fn skip_spaces(s: Seq<u8>, i: int) -> int
    decreases s.len() - i,
{
    if 0 <= i < s.len() && is_space(s[i]) {
        skip_spaces(s, i + 1)
    } else {
        i
    }
}

/// The first index at or after `i` that holds whitespace, or the end of `s`.
pub open spec fn skip_token(s: Seq<u8>, i: int) -> int
    decreases s.len() - i,
{
    if 0 <= i < s.len() && !is_space(s[i]) {
        skip_token(s, i + 1)
    } else {
        i
    }
}

/// Executable form of [`skip_spaces`].
pub fn find_token_start(s: &[u8], i: usize) -> (r: usize)
    requires
        i <= s@.len(),
    ensures
        r == skip_spaces(s@, i as int),
        i <= r <= s@.len(),
{
    let mut j: usize = i;
    while j < s.len() && byte_is_space(s[j])
        invariant
            i <= j <= s@.len(),
            skip_spaces(s@, j as int) == skip_spaces(s@, i as int),
        decreases s@.len() - j,
    {
        j += 1;
    }
    j
}

/// Executable form of [`skip_token`].
pub fn find_token_end(s: &[u8], i: usize) -> (r: usize)
    requires
        i <= s@.len(),
    ensures
        r == skip_token(s@, i as int),
        i <= r <= s@.len(),
{
    let mut j: usize = i;
    while j < s.len() && !byte_is_space(s[j])
        invariant
            i <= j <= s@.len(),
            skip_token(s@, j as int) == skip_token(s@, i as int),
        decreases s@.len() - j,
    {
        j += 1;
    }
    j
}

/// The `k`-th whitespace-separated token of `s` found at or after `from`,
/// counting from zero; `None` when there are fewer.
pub open spec fn token_from(s: Seq<u8>, from: int, k: nat) -> Option<Seq<u8>>
    decreases k,
{
    let a = skip_spaces(s, from);
    let b = skip_token(s, a);
    if a >= s.len() {
        None
    } else if k == 0 {
        Some(s.subrange(a, b))
    } else {
        token_from(s, b, (k - 1) as nat)
    }
}

/// The `k`-th whitespace-separated token of `s`, counting from zero.
pub open spec fn token(s: Seq<u8>, k: nat) -> Option<Seq<u8>> {
    token_from(s, 0, k)
}

/// Finds the `k`-th whitespace-separated token of `s`.
pub fn nth_token(s: &[u8], k: usize) -> (r: Option<&[u8]>)
    ensures
        match token(s@, k as nat) {
            Some(t) => r matches Some(found) && found@ == t,
            None => r is None,
        },
{
    let mut from: usize = 0;
    let mut left: usize = k;
    loop
        invariant
            from <= s@.len(),
            left <= k,
            token_from(s@, from as int, left as nat) == token(s@, k as nat),
        decreases left,
    {
        let a = find_token_start(s, from);
        if a >= s.len() {
            return None;
        }
        let b = find_token_end(s, a);
        if left == 0 {
            return Some(slice_subrange(s, a, b));
        }
        from = b;
        left -= 1;
    }
}

/// Whether `s` begins with the bytes of `prefix`.
pub fn starts_with(s: &[u8], prefix: &[u8]) -> (r: bool)
    ensures
        r == prefix@.is_prefix_of(s@),
{
    if prefix.len() > s.len() {
        return false;
    }
    let mut i: usize = 0;
    while i < prefix.len()
        invariant
            i <= prefix@.len() <= s@.len(),
            forall|j: int| 0 <= j < i ==> prefix@[j] == s@[j],
        decreases prefix@.len() - i,
    {
        if prefix[i] != s[i] {
            return false;
        }
        i += 1;
    }
    assert(prefix@ =~= s@.subrange(0, prefix@.len() as int));
    true
}

/// The content of `s` once leading and trailing whitespace is removed.
pub open spec fn trimmed(s: Seq<u8>) -> Seq<u8> {
    let a = skip_spaces(s, 0);
    s.subrange(a, trimmed_end(s, a, s.len() as int))
}

/// The end of the content of `s`: going down from `hi`, one past the last
/// index at or after `lo` that holds no whitespace, or `lo` when there is none.
pub open spec fn trimmed_end(s: Seq<u8>, lo: int, hi: int) -> int
    decreases hi - lo,
{
    if lo < hi <= s.len() && is_space(s[hi - 1]) {
        trimmed_end(s, lo, hi - 1)
    } else {
        hi
    }
}

/// Whether the content of `s`, without the whitespace around it, is `word`.
pub fn trimmed_equals(s: &[u8], word: &[u8]) -> (r: bool)
    ensures
        r == (trimmed(s@) == word@),
{
    let a = find_token_start(s, 0);
    let mut b: usize = s.len();
    while a < b && byte_is_space(s[b - 1])
        invariant
            a <= b <= s@.len(),
            trimmed_end(s@, a as int, b as int) == trimmed_end(s@, a as int, s@.len() as int),
        decreases b - a,
    {
        b -= 1;
    }
    let content = slice_subrange(s, a, b);
    if content.len() != word.len() {
        return false;
    }
    let mut i: usize = 0;
    while i < word.len()
        invariant
            i <= word@.len(),
            content@.len() == word@.len(),
            content@ == trimmed(s@),
            forall|j: int| 0 <= j < i ==> content@[j] == word@[j],
        decreases word@.len() - i,
    {
        if content[i] != word[i] {
            return false;
        }
        i += 1;
    }
    assert(content@ =~= word@);
    true
}

} // verus!
