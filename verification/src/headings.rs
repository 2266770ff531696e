//! Collecting headings from the token stream once the marker region is open:
//! heading boundaries are tracked and the heading's text is sliced from the
//! raw source bytes (so escapes stay literally escaped). Every heading after
//! the marker is collected, whatever its level: anchors are assigned over all
//! of them, and only rendering drops the ones deeper than the permitted
//! maximum.

use vstd::prelude::*;

use crate::chars::{copy_trimmed, trim_end_ws};
use crate::text::{clone_bytes, is_ascii_space};
use crate::token::{token_views, wf_tokens, GToken, GTokenKind, Token, TokenKind};

verus! {

/// One heading kept for the list: its raw level, its text sliced from the
/// source, and its explicit identifier if the author declared one.
pub struct GHeading {
    pub level: int,
    pub text: Seq<u8>,
    pub id: Option<Seq<u8>>,
}

pub struct Heading {
    pub level: u32,
    pub text: Vec<u8>,
    pub id: Option<Vec<u8>>,
}

impl View for Heading {
    type V = GHeading;

    open spec fn view(&self) -> GHeading {
        GHeading {
            level: self.level as int,
            text: self.text@,
            id: match &self.id {
                Some(v) => Some(v@),
                None => None,
            },
        }
    }
}

pub open spec fn heading_views(hs: Seq<Heading>) -> Seq<GHeading> {
    hs.map_values(|h: Heading| h@)
}

/// The first position in `[from, until)` holding neither a `#` nor an ASCII
/// whitespace byte; `from` itself if there is none. This is where a heading's
/// own text begins after the heading-marker glyphs.
pub open spec fn find_content(text: Seq<u8>, until: int, k: int) -> Option<int>
    decreases until - k,
{
    if k < 0 || k >= until || until > text.len() {
        None
    } else if text[k] != 35 && !is_ascii_space(text[k]) {
        Some(k)
    } else {
        find_content(text, until, k + 1)
    }
}

pub open spec fn content_start(text: Seq<u8>, from: int, until: int) -> int {
    match find_content(text, until, from) {
        Some(j) => j,
        None => from,
    }
}

/// An open heading being tracked: its level and identifier from the opening
/// token, where its text starts, and the furthest text or code end seen.
pub struct GHeadState {
    pub level: int,
    pub id: Option<Seq<u8>>,
    pub tstart: int,
    pub tend: int,
}

pub open spec fn extend_state(cur: Option<GHeadState>, e: int) -> Option<GHeadState> {
    match cur {
        Some(st) => Some(
            GHeadState {
                level: st.level,
                id: st.id,
                tstart: st.tstart,
                tend: if e > st.tend {
                    e
                } else {
                    st.tend
                },
            },
        ),
        None => None,
    }
}

/// The heading a closing token produces: the raw slice between the content
/// start and the furthest text or code end, trailing whitespace trimmed. A
/// heading with no text or code tokens yields empty text.
pub open spec fn close_entry(text: Seq<u8>, st: GHeadState) -> GHeading {
    GHeading {
        level: st.level,
        text: if st.tstart <= st.tend {
            trim_end_ws(text.subrange(st.tstart, st.tend))
        } else {
            Seq::empty()
        },
        id: st.id,
    }
}

/// The headings collected from token `i` on, in document order, given the
/// open-heading state `cur`.
pub open spec fn collect_from(
    toks: Seq<GToken>,
    text: Seq<u8>,
    i: int,
    cur: Option<GHeadState>,
) -> Seq<GHeading>
    decreases toks.len() - i,
{
    if i < 0 || i >= toks.len() {
        Seq::empty()
    } else {
        let t = toks[i];
        match t.kind {
            GTokenKind::HeadingOpen { level, id } => collect_from(
                toks,
                text,
                i + 1,
                Some(
                    GHeadState {
                        level,
                        id,
                        tstart: content_start(text, t.start, t.end),
                        tend: 0,
                    },
                ),
            ),
            GTokenKind::Text => collect_from(toks, text, i + 1, extend_state(cur, t.end)),
            GTokenKind::Code => collect_from(toks, text, i + 1, extend_state(cur, t.end)),
            GTokenKind::HeadingClose => match cur {
                Some(st) => seq![close_entry(text, st)] + collect_from(toks, text, i + 1, None),
                None => collect_from(toks, text, i + 1, None),
            },
            GTokenKind::Other => collect_from(toks, text, i + 1, cur),
        }
    }
}

/// The collection depends on the tokens at or after `i` alone: headings whose
/// tokens all lie before the marker region never contribute an entry.
pub proof fn lemma_headings_before_start_ignored(
    toks1: Seq<GToken>,
    toks2: Seq<GToken>,
    text: Seq<u8>,
    i: int,
    cur: Option<GHeadState>,
)
    requires
        toks1.len() == toks2.len(),
        forall|j: int| i <= j < toks1.len() ==> toks1[j] == toks2[j],
    ensures
        collect_from(toks1, text, i, cur) == collect_from(toks2, text, i, cur),
    decreases toks1.len() - i,
{
    if i < 0 || i >= toks1.len() {
    } else {
        let t = toks1[i];
        match t.kind {
            GTokenKind::HeadingOpen { level, id } => {
                lemma_headings_before_start_ignored(
                    toks1,
                    toks2,
                    text,
                    i + 1,
                    Some(
                        GHeadState {
                            level,
                            id,
                            tstart: content_start(text, t.start, t.end),
                            tend: 0,
                        },
                    ),
                );
            },
            GTokenKind::Text => {
                lemma_headings_before_start_ignored(
                    toks1,
                    toks2,
                    text,
                    i + 1,
                    extend_state(cur, t.end),
                );
            },
            GTokenKind::Code => {
                lemma_headings_before_start_ignored(
                    toks1,
                    toks2,
                    text,
                    i + 1,
                    extend_state(cur, t.end),
                );
            },
            GTokenKind::HeadingClose => {
                lemma_headings_before_start_ignored(toks1, toks2, text, i + 1, None);
            },
            GTokenKind::Other => {
                lemma_headings_before_start_ignored(toks1, toks2, text, i + 1, cur);
            },
        }
    }
}

/// Every collected heading keeps a level the tokenizer can produce.
pub proof fn lemma_collect_levels(
    toks: Seq<GToken>,
    text: Seq<u8>,
    i: int,
    cur: Option<GHeadState>,
    n: nat,
)
    requires
        wf_tokens(toks, n),
        cur matches Some(st) ==> 1 <= st.level <= 6,
    ensures
        forall|k: int|
            0 <= k < collect_from(toks, text, i, cur).len() ==> 1 <= (
            #[trigger] collect_from(toks, text, i, cur)[k]).level <= 6,
    decreases toks.len() - i,
{
    if i < 0 || i >= toks.len() {
    } else {
        let t = toks[i];
        match t.kind {
            GTokenKind::HeadingOpen { level, id } => {
                lemma_collect_levels(
                    toks,
                    text,
                    i + 1,
                    Some(
                        GHeadState {
                            level,
                            id,
                            tstart: content_start(text, t.start, t.end),
                            tend: 0,
                        },
                    ),
                    n,
                );
            },
            GTokenKind::Text => {
                lemma_collect_levels(toks, text, i + 1, extend_state(cur, t.end), n);
            },
            GTokenKind::Code => {
                lemma_collect_levels(toks, text, i + 1, extend_state(cur, t.end), n);
            },
            GTokenKind::HeadingClose => {
                lemma_collect_levels(toks, text, i + 1, None, n);
            },
            GTokenKind::Other => {
                lemma_collect_levels(toks, text, i + 1, cur, n);
            },
        }
    }
}

/// Finds where a heading's own text begins inside its span.
fn content_start_exec(text: &Vec<u8>, from: usize, until: usize) -> (r: usize)
    requires
        from <= until <= text@.len(),
    ensures
        r as int == content_start(text@, from as int, until as int),
        from <= r <= until,
{
    let mut k: usize = from;
    while k < until
        invariant
            from <= k <= until <= text@.len(),
            find_content(text@, until as int, from as int) == find_content(
                text@,
                until as int,
                k as int,
            ),
        decreases until - k,
    {
        let b = text[k];
        if b != 35 && !(b == 32 || b == 9 || b == 10 || b == 12 || b == 13) {
            return k;
        }
        k = k + 1;
    }
    from
}

/// Collects the headings of the token stream from `from` on.
pub(crate) fn collect_headings(toks: &Vec<Token>, content: &Vec<u8>, from: usize) -> (r: Vec<
    Heading,
>)
    requires
        wf_tokens(token_views(toks@), content@.len()),
        from <= toks@.len(),
    ensures
        heading_views(r@) == collect_from(token_views(toks@), content@, from as int, None),
{
    let ghost gt = token_views(toks@);
    let mut out: Vec<Heading> = Vec::new();
    let mut cur_level: u32 = 0;
    let mut cur_id: Option<Vec<u8>> = None;
    let mut cur_tstart: usize = 0;
    let mut cur_tend: usize = 0;
    let mut open: bool = false;
    let mut i: usize = from;
    let ghost goal = collect_from(gt, content@, from as int, None);
    while i < toks.len()
        invariant
            i <= toks@.len(),
            gt == token_views(toks@),
            wf_tokens(gt, content@.len()),
            goal == collect_from(gt, content@, from as int, None),
            open ==> cur_tstart <= content@.len() && cur_tend <= content@.len() && 1 <= cur_level
                <= 6,
            goal == heading_views(out@) + collect_from(
                gt,
                content@,
                i as int,
                if open {
                    Some(
                        GHeadState {
                            level: cur_level as int,
                            id: match &cur_id {
                                Some(v) => Some(v@),
                                None => None,
                            },
                            tstart: cur_tstart as int,
                            tend: cur_tend as int,
                        },
                    )
                } else {
                    None
                },
            ),
        decreases toks@.len() - i,
    {
        let t = &toks[i];
        match &t.kind {
            TokenKind::HeadingOpen { level, id } => {
                cur_level = *level;
                cur_id = match id {
                    Some(v) => Some(clone_bytes(v)),
                    None => None,
                };
                cur_tstart = content_start_exec(content, t.start, t.end);
                cur_tend = 0;
                open = true;
            },
            TokenKind::Text => {
                if open && t.end > cur_tend {
                    cur_tend = t.end;
                }
            },
            TokenKind::Code => {
                if open && t.end > cur_tend {
                    cur_tend = t.end;
                }
            },
            TokenKind::HeadingClose => {
                if open {
                    let text = if cur_tstart <= cur_tend {
                        copy_trimmed(content, cur_tstart, cur_tend)
                    } else {
                        Vec::new()
                    };
                    let id = match &cur_id {
                        Some(v) => Some(clone_bytes(v)),
                        None => None,
                    };
                    let h = Heading { level: cur_level, text, id };
                    let ghost st = GHeadState {
                        level: cur_level as int,
                        id: match &cur_id {
                            Some(v) => Some(v@),
                            None => None,
                        },
                        tstart: cur_tstart as int,
                        tend: cur_tend as int,
                    };
                    let ghost out_before = out@;
                    let ghost rest = collect_from(gt, content@, i + 1 as int, None);
                    proof {
                        assert(h@ == close_entry(content@, st));
                    }
                    out.push(h);
                    proof {
                        assert(heading_views(out@) =~= heading_views(out_before) + seq![h@]);
                        assert(heading_views(out_before) + (seq![close_entry(content@, st)] + rest)
                            =~= heading_views(out@) + rest);
                    }
                }
                open = false;
            },
            TokenKind::Other => {},
        }
        i = i + 1;
    }
    out
}

} // verus!
