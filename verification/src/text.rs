//! Byte-level text helpers: line-ending normalization, ASCII classification,
//! trailing-whitespace trimming, and byte-sequence equality.

use vstd::prelude::*;

verus! {

/// The document text with every CR-LF pair collapsed to a single LF,
/// scanning left to right.
pub open spec fn normalize_crlf(s: Seq<u8>) -> Seq<u8>
    decreases s.len(),
{
    if s.len() == 0 {
        Seq::empty()
    } else if s[0] == 13 && s.len() >= 2 && s[1] == 10 {
        seq![10u8] + normalize_crlf(s.skip(2))
    } else {
        seq![s[0]] + normalize_crlf(s.skip(1))
    }
}

pub fn normalize_newlines(s: &[u8]) -> (r: Vec<u8>)
    ensures
        r@ == normalize_crlf(s@),
{
    let mut out: Vec<u8> = Vec::new();
    let mut i: usize = 0;
    proof {
        assert(s@.skip(0) =~= s@);
        assert(out@ + normalize_crlf(s@) =~= normalize_crlf(s@));
    }
    while i < s.len()
        invariant
            i <= s@.len(),
            normalize_crlf(s@) == out@ + normalize_crlf(s@.skip(i as int)),
        decreases s@.len() - i,
    {
        if s[i] == 13 && i + 1 < s.len() && s[i + 1] == 10 {
            out.push(10);
            proof {
                assert(s@.skip(i as int).skip(2) =~= s@.skip(i as int + 2));
                assert(out@ + normalize_crlf(s@.skip(i as int + 2)) =~= normalize_crlf(s@));
            }
            i = i + 2;
        } else {
            let b = s[i];
            out.push(b);
            proof {
                assert(s@.skip(i as int).skip(1) =~= s@.skip(i as int + 1));
                assert(out@ + normalize_crlf(s@.skip(i as int + 1)) =~= normalize_crlf(s@));
            }
            i = i + 1;
        }
    }
    proof {
        assert(s@.skip(i as int) =~= Seq::<u8>::empty());
        assert(out@ =~= normalize_crlf(s@));
    }
    out
}

/// ASCII whitespace in the sense of `u8::is_ascii_whitespace`:
/// space, tab, line feed, form feed, carriage return.
pub open spec fn is_ascii_space(b: u8) -> bool {
    b == 32 || b == 9 || b == 10 || b == 12 || b == 13
}

/// A copy of the byte string.
pub(crate) fn clone_bytes(v: &Vec<u8>) -> (r: Vec<u8>)
    ensures
        r@ == v@,
{
    let mut out: Vec<u8> = Vec::new();
    let mut i: usize = 0;
    while i < v.len()
        invariant
            i <= v@.len(),
            out@ =~= v@.subrange(0, i as int),
        decreases v@.len() - i,
    {
        out.push(v[i]);
        i = i + 1;
    }
    proof {
        assert(out@ =~= v@);
    }
    out
}

/// Exact equality of two byte strings.
pub fn bytes_eq(a: &[u8], b: &[u8]) -> (r: bool)
    ensures
        r == (a@ == b@),
{
    if a.len() != b.len() {
        return false;
    }
    let mut i: usize = 0;
    while i < a.len()
        invariant
            i <= a@.len(),
            a@.len() == b@.len(),
            forall|k: int| 0 <= k < i ==> a@[k] == b@[k],
        decreases a@.len() - i,
    {
        if a[i] != b[i] {
            return false;
        }
        i = i + 1;
    }
    proof {
        assert(a@ =~= b@);
    }
    true
}

/// Appends all of `src` to `out`.
pub fn push_all(out: &mut Vec<u8>, src: &[u8])
    ensures
        final(out)@ == old(out)@ + src@,
{
    let mut i: usize = 0;
    while i < src.len()
        invariant
            i <= src@.len(),
            out@ =~= old(out)@ + src@.subrange(0, i as int),
        decreases src@.len() - i,
    {
        out.push(src[i]);
        i = i + 1;
    }
    proof {
        assert(src@.subrange(0, src@.len() as int) =~= src@);
    }
}

/// Appends `src[a..b]` to `out`.
pub fn push_range(out: &mut Vec<u8>, src: &Vec<u8>, a: usize, b: usize)
    requires
        a <= b <= src@.len(),
    ensures
        final(out)@ == old(out)@ + src@.subrange(a as int, b as int),
{
    let mut i: usize = a;
    while i < b
        invariant
            a <= i <= b <= src@.len(),
            out@ =~= old(out)@ + src@.subrange(a as int, i as int),
        decreases b - i,
    {
        out.push(src[i]);
        i = i + 1;
    }
}

} // verus!
