//! Decimal unsigned integers, as the header writes its record count.

use vstd::prelude::*;

verus! {

/// An ASCII decimal digit.
pub open spec fn is_digit(b: u8) -> bool {
    0x30 <= b && b <= 0x39
}

/// The number that the decimal digits `s` write, most significant digit first.
pub open spec fn decimal(s: Seq<u8>) -> nat
    decreases s.len(),
{
    if s.len() == 0 {
        0
    } else {
        decimal(s.drop_last()) * 10 + (s.last() - 0x30) as nat
    }
}

/// The digits of a token: the token itself, without a leading plus sign.
pub open spec fn digits_of(tok: Seq<u8>) -> Seq<u8> {
    if tok.len() > 0 && tok[0] == 0x2b {
        tok.subrange(1, tok.len() as int)
    } else {
        tok
    }
}

/// The value of a token as an unsigned integer of the machine's word size: an
/// optional plus sign, then one or more decimal digits whose value fits.
/// Everything else, a minus sign included, has no value.
pub open spec fn unsigned_value(tok: Seq<u8>) -> Option<nat> {
    let d = digits_of(tok);
    if d.len() > 0 && (forall|i: int| 0 <= i < d.len() ==> is_digit(#[trigger] d[i])) && decimal(d)
        <= usize::MAX {
        Some(decimal(d))
    } else {
        None
    }
}

/// A number is at least the one that any of its leading digits write.
proof fn lemma_decimal_prefix(s: Seq<u8>, n: int)
    requires
        0 <= n <= s.len(),
    ensures
        decimal(s.subrange(0, n)) <= decimal(s),
    decreases s.len() - n,
{
    if n == s.len() {
        assert(s.subrange(0, n) =~= s);
    } else {
        lemma_decimal_prefix(s.drop_last(), n);
        assert(s.drop_last().subrange(0, n) =~= s.subrange(0, n));
    }
}

/// Parses a token as an unsigned integer.
pub fn parse_unsigned(tok: &[u8]) -> (r: Option<usize>)
    ensures
        match unsigned_value(tok@) {
            Some(v) => r == Some(v as usize),
            None => r is None,
        },
{
    let start: usize = if tok.len() > 0 && tok[0] == 0x2b {
        1
    } else {
        0
    };
    if start >= tok.len() {
        return None;
    }
    let ghost d = digits_of(tok@);
    let mut acc: usize = 0;
    let mut i: usize = start;
    while i < tok.len()
        invariant
            start <= i <= tok@.len(),
            d == tok@.subrange(start as int, tok@.len() as int),
            d == digits_of(tok@),
            forall|j: int| 0 <= j < i - start ==> is_digit(#[trigger] d[j]),
            acc == decimal(d.subrange(0, i - start)),
        decreases tok@.len() - i,
    {
        let b = tok[i];
        if b < 0x30 || b > 0x39 {
            assert(!is_digit(d[i - start]));
            return None;
        }
        let v: usize = (b - 0x30) as usize;
        proof {
            assert(d.subrange(0, i - start + 1).drop_last() =~= d.subrange(0, i - start));
            assert(d.subrange(0, i - start + 1).last() == b);
        }
        if acc > (usize::MAX - v) / 10 {
            proof {
                lemma_decimal_prefix(d, i - start + 1);
            }
            return None;
        }
        acc = acc * 10 + v;
        i += 1;
    }
    assert(d.subrange(0, d.len() as int) =~= d);
    Some(acc)
}

} // verus!
