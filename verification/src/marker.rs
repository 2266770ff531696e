//! Locating the marker: a streaming matcher that walks the token stream with
//! a cursor into the marker's token sequence, resetting on a mismatch and
//! re-evaluating the mismatched token against the marker's first element.

use vstd::prelude::*;

use crate::token::{tok_eq, token_matches, token_views, GToken, Token};

verus! {

/// A successful marker match: the first matched token's span start, the last
/// matched token's span end, and the stream index of the last matched token.
pub struct GMatch {
    pub start: int,
    pub end: int,
    pub end_idx: int,
}

/// The matcher's outcome from token `i` on, with the cursor at marker
/// position `loc` and `start` the span start recorded when the cursor left
/// zero. A token equal to the marker token under the cursor advances it; a
/// mismatch while mid-match resets the cursor and reconsiders the same token;
/// any other token is passed over.
pub open spec fn scan_marker(
    toks: Seq<GToken>,
    marker: Seq<GToken>,
    i: int,
    loc: int,
    start: int,
) -> Option<GMatch>
    decreases toks.len() - i, loc,
{
    if i < 0 || i >= toks.len() || loc < 0 || loc >= marker.len() {
        None
    } else if tok_eq(toks[i], marker[loc]) {
        let s = if loc == 0 {
            toks[i].start
        } else {
            start
        };
        if loc + 1 == marker.len() {
            Some(GMatch { start: s, end: toks[i].end, end_idx: i })
        } else {
            scan_marker(toks, marker, i + 1, loc + 1, s)
        }
    } else if loc > 0 {
        scan_marker(toks, marker, i, 0, 0)
    } else {
        scan_marker(toks, marker, i + 1, 0, 0)
    }
}

/// The first marker occurrence in the token stream, if any.
pub open spec fn find_marker_spec(toks: Seq<GToken>, marker: Seq<GToken>) -> Option<GMatch> {
    scan_marker(toks, marker, 0, 0, 0)
}

/// A match's spans come from tokens of the stream, so they lie within the
/// text the tokens were cut from.
pub proof fn lemma_scan_marker_wf(
    toks: Seq<GToken>,
    marker: Seq<GToken>,
    i: int,
    loc: int,
    start: int,
    n: nat,
)
    requires
        crate::token::wf_tokens(toks, n),
        loc > 0 ==> 0 <= start <= n,
    ensures
        scan_marker(toks, marker, i, loc, start) matches Some(m) ==> {
            &&& 0 <= m.start <= n
            &&& 0 <= m.end <= n
            &&& 0 <= m.end_idx < toks.len()
        },
    decreases toks.len() - i, loc,
{
    if i < 0 || i >= toks.len() || loc < 0 || loc >= marker.len() {
    } else if tok_eq(toks[i], marker[loc]) {
        let s = if loc == 0 {
            toks[i].start
        } else {
            start
        };
        if loc + 1 == marker.len() {
        } else {
            lemma_scan_marker_wf(toks, marker, i + 1, loc + 1, s, n);
        }
    } else if loc > 0 {
        lemma_scan_marker_wf(toks, marker, i, 0, 0, n);
    } else {
        lemma_scan_marker_wf(toks, marker, i + 1, 0, 0, n);
    }
}

/// The byte span and stream position of a successful marker match.
pub struct MarkerMatch {
    pub start: usize,
    pub end: usize,
    pub end_idx: usize,
}

impl View for MarkerMatch {
    type V = GMatch;

    open spec fn view(&self) -> GMatch {
        GMatch { start: self.start as int, end: self.end as int, end_idx: self.end_idx as int }
    }
}

/// Finds the first run of tokens equal, element by element, to the marker's
/// token sequence.
pub(crate) fn find_marker(toks: &Vec<Token>, marker: &Vec<Token>) -> (r: Option<MarkerMatch>)
    ensures
        match r {
            Some(m) => find_marker_spec(token_views(toks@), token_views(marker@)) == Some(m@),
            None => find_marker_spec(token_views(toks@), token_views(marker@)) is None,
        },
{
    let ghost gt = token_views(toks@);
    let ghost gm = token_views(marker@);
    let mut i: usize = 0;
    let mut loc: usize = 0;
    let mut start: usize = 0;
    while i < toks.len()
        invariant
            i <= toks@.len(),
            loc < marker@.len() || (loc == 0 && marker@.len() == 0),
            gt == token_views(toks@),
            gm == token_views(marker@),
            find_marker_spec(gt, gm) == scan_marker(gt, gm, i as int, loc as int, start as int),
        decreases toks@.len() - i, loc,
    {
        if loc >= marker.len() {
            // Only possible for an empty marker sequence, which never matches.
            return None;
        }
        if token_matches(&toks[i], &marker[loc]) {
            if loc == 0 {
                start = toks[i].start;
            }
            if loc + 1 == marker.len() {
                let m = MarkerMatch { start, end: toks[i].end, end_idx: i };
                return Some(m);
            }
            loc = loc + 1;
            i = i + 1;
        } else if loc > 0 {
            loc = 0;
            start = 0;
        } else {
            start = 0;
            i = i + 1;
        }
    }
    None
}

} // verus!
