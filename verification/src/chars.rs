//! Character-level views of byte text: each character with its byte range,
//! Unicode classification of single characters, and trimming of trailing
//! whitespace characters. The classifications come from the host language's
//! own tables, behind trusted declarations.

use vstd::prelude::*;

use crate::text::push_range;

verus! {

/// Spec-level character of a UTF-8 text with its byte range.
pub struct GCharSpan {
    pub ch: char,
    pub start: int,
    pub end: int,
}

/// A character of a UTF-8 text with the byte range it occupies.
pub struct CharSpan {
    pub ch: char,
    pub start: usize,
    pub end: usize,
}

impl View for CharSpan {
    type V = GCharSpan;

    open spec fn view(&self) -> GCharSpan {
        GCharSpan { ch: self.ch, start: self.start as int, end: self.end as int }
    }
}

pub open spec fn char_span_views(cs: Seq<CharSpan>) -> Seq<GCharSpan> {
    cs.map_values(|c: CharSpan| c@)
}

/// The characters of the given UTF-8 text, each with its byte range, in
/// order. Text that is not valid UTF-8 has no characters.
pub uninterp spec fn char_spans_of(b: Seq<u8>) -> Seq<GCharSpan>;

/// Relies on str::char_indices: each character of the text with the byte
/// position where it starts; the character's encoded length gives the end.
/// Input that is not valid UTF-8 yields no characters.
#[verifier::external_body]
pub(crate) fn char_spans(b: &[u8]) -> (r: Vec<CharSpan>)
    ensures
        char_span_views(r@) == char_spans_of(b@),
        forall|k: int|
            0 <= k < r@.len() ==> 0 <= (#[trigger] r@[k])@.start < r@[k]@.end <= b@.len(),
{
    let s = match core::str::from_utf8(b) {
        Ok(s) => s,
        Err(_) => {
            return Vec::new();
        },
    };
    let mut out = Vec::new();
    for (i, c) in s.char_indices() {
        out.push(CharSpan { ch: c, start: i, end: i + c.len_utf8() });
    }
    out
}

/// Whether the character counts as alphanumeric.
pub uninterp spec fn is_alnum_char(c: char) -> bool;

/// Relies on char::is_alphanumeric: Unicode letter-or-number classification,
/// a function of the character alone.
#[verifier::external_body]
pub(crate) fn char_alphanumeric(c: char) -> (r: bool)
    ensures
        r == is_alnum_char(c),
{
    c.is_alphanumeric()
}

/// Whether the character counts as whitespace.
pub uninterp spec fn is_space_char(c: char) -> bool;

/// Relies on char::is_whitespace: Unicode whitespace classification, a
/// function of the character alone.
#[verifier::external_body]
pub(crate) fn char_whitespace(c: char) -> (r: bool)
    ensures
        r == is_space_char(c),
{
    c.is_whitespace()
}

/// The byte position just past the last non-whitespace character among the
/// first `i` characters; 0 when all of them are whitespace.
pub open spec fn last_content_end(spans: Seq<GCharSpan>, i: int) -> int
    decreases i,
{
    if i <= 0 {
        0
    } else if !is_space_char(spans[i - 1].ch) {
        spans[i - 1].end
    } else {
        last_content_end(spans, i - 1)
    }
}

/// `s` with every trailing whitespace character removed.
pub open spec fn trim_end_ws(s: Seq<u8>) -> Seq<u8> {
    let spans = char_spans_of(s);
    let e = last_content_end(spans, spans.len() as int);
    if 0 <= e <= s.len() {
        s.subrange(0, e)
    } else {
        s
    }
}

/// Copies `src[a..b]` with trailing whitespace characters removed.
pub(crate) fn copy_trimmed(src: &Vec<u8>, a: usize, b: usize) -> (r: Vec<u8>)
    requires
        a <= b <= src@.len(),
    ensures
        r@ == trim_end_ws(src@.subrange(a as int, b as int)),
{
    let mut buf: Vec<u8> = Vec::new();
    push_range(&mut buf, src, a, b);
    proof {
        assert(buf@ =~= src@.subrange(a as int, b as int));
    }
    let spans = char_spans(buf.as_slice());
    let ghost gs = char_spans_of(buf@);
    let mut j: usize = spans.len();
    while j > 0 && char_whitespace(spans[j - 1].ch)
        invariant
            j <= spans@.len(),
            char_span_views(spans@) == gs,
            forall|k: int|
                0 <= k < spans@.len() ==> 0 <= (#[trigger] spans@[k])@.start < spans@[k]@.end
                    <= buf@.len(),
            last_content_end(gs, spans@.len() as int) == last_content_end(gs, j as int),
        decreases j,
    {
        j = j - 1;
    }
    let e: usize = if j == 0 {
        0
    } else {
        spans[j - 1].end
    };
    proof {
        assert(e as int == last_content_end(gs, j as int));
        assert(e <= buf@.len());
    }
    let mut out: Vec<u8> = Vec::new();
    push_range(&mut out, &buf, 0, e);
    proof {
        assert(buf@.subrange(0, e as int) =~= trim_end_ws(src@.subrange(a as int, b as int)));
        assert(out@ =~= trim_end_ws(src@.subrange(a as int, b as int)));
    }
    out
}

} // verus!
