//! Table-of-contents injection for markdown documents: a user-placed marker
//! token sequence is replaced by a nested bullet list of links to the
//! document's headings, leaving every byte outside the marker span unchanged.
//!
//! The pipeline tokenizes the document, locates the marker as a contiguous
//! run of tokens equal to the marker's own token sequence, collects the
//! headings that follow it, assigns each a unique anchor, normalizes the
//! heading levels into a nesting-safe sequence, and splices the rendered
//! list over the marker's exact byte span.

use vstd::prelude::*;

pub mod chars;
pub mod headings;
pub mod marker;
pub mod render;
pub mod slug;
pub mod splice;
pub mod text;
pub mod token;

verus! {

use crate::headings::{collect_from, collect_headings, heading_views, lemma_collect_levels};
use crate::marker::{find_marker, find_marker_spec, lemma_scan_marker_wf};
use crate::render::{filter_entries, keep_entries, lemma_keep_levels, render_entries, render_toc};
use crate::slug::{assign_slugs, entries_of, entry_views};
use crate::splice::{splice, splice_exec};
use crate::text::{normalize_crlf, normalize_newlines};
use crate::token::{token_views, tokenize, tokens_of};

/// Why a document could not be processed.
#[derive(Clone, Copy, Debug, PartialEq, Eq)]
pub enum TocError {
    /// The configured marker text tokenizes to nothing, so no occurrence
    /// could ever be matched.
    InvalidMarker,
}

/// Configuration for table-of-contents generation.
pub struct Config {
    /// The marker text whose token sequence is replaced by the list.
    pub marker: Vec<u8>,
    /// The maximum heading level included in the list.
    pub max_level: u32,
}

/// The default marker text, `<!-- toc -->` followed by a newline.
pub open spec fn default_marker_spec() -> Seq<u8> {
    seq![60u8, 33u8, 45u8, 45u8, 32u8, 116u8, 111u8, 99u8, 32u8, 45u8, 45u8, 62u8, 10u8]
}

fn default_marker() -> (r: Vec<u8>)
    ensures
        r@ == default_marker_spec(),
{
    let mut m: Vec<u8> = Vec::new();
    m.push(60);
    m.push(33);
    m.push(45);
    m.push(45);
    m.push(32);
    m.push(116);
    m.push(111);
    m.push(99);
    m.push(32);
    m.push(45);
    m.push(45);
    m.push(62);
    m.push(10);
    proof {
        assert(m@ =~= default_marker_spec());
    }
    m
}

impl Default for Config {
    /// The HTML-comment marker and a maximum level of 4.
    fn default() -> (c: Config)
        ensures
            c.marker@ == default_marker_spec(),
            c.max_level == 4,
    {
        Config { marker: default_marker(), max_level: 4 }
    }
}

/// The transformed document: the line endings normalized, and, where the
/// marker's token sequence first occurs, its byte span replaced by the
/// rendered list of the headings that follow it.
pub open spec fn spec_add_toc(content: Seq<u8>, marker: Seq<u8>, max: int) -> Seq<u8> {
    let text = normalize_crlf(content);
    let toks = tokens_of(text, true);
    match find_marker_spec(toks, tokens_of(marker, false)) {
        Option::None => text,
        // A match whose spans fall outside the text cannot arise from the
        // tokenizer's byte ranges; the transform is left the identity there
        // so that it stays total over the token model.
        Option::Some(m) => if 0 <= m.start <= text.len() && 0 <= m.end <= text.len() && 0
            <= m.end_idx <= toks.len() {
            splice(
                text,
                render_toc(
                    keep_entries(
                        entries_of(collect_from(toks, text, m.end_idx, Option::None)),
                        max,
                    ),
                ),
                m.start,
                m.end,
            )
        } else {
            text
        },
    }
}

/// The table-of-contents transform.
pub struct Toc;

impl Toc {
    /// Adds a table of contents to the given document text, replacing the
    /// first occurrence of the configured marker. A document without the
    /// marker is returned with only its line endings normalized. A marker
    /// that tokenizes to nothing is rejected.
    pub fn add_toc(content: &[u8], cfg: &Config) -> (r: Result<Vec<u8>, TocError>)
        ensures
            match r {
                Ok(v) => tokens_of(cfg.marker@, false).len() > 0 && v@ == spec_add_toc(
                    content@,
                    cfg.marker@,
                    cfg.max_level as int,
                ),
                Err(e) => tokens_of(cfg.marker@, false).len() == 0 && e
                    == TocError::InvalidMarker,
            },
    {
        let mtoks = tokenize(cfg.marker.as_slice(), false);
        if mtoks.len() == 0 {
            return Err(TocError::InvalidMarker);
        }
        let text = normalize_newlines(content);
        let toks = tokenize(text.as_slice(), true);
        let ghost gt = token_views(toks@);
        let ghost gm = token_views(mtoks@);
        match find_marker(&toks, &mtoks) {
            None => Ok(text),
            Some(m) => {
                proof {
                    lemma_scan_marker_wf(gt, gm, 0, 0, 0, text@.len());
                }
                let headings = collect_headings(&toks, &text, m.end_idx);
                let entries = assign_slugs(&headings);
                proof {
                    lemma_collect_levels(gt, text@, m.end_idx as int, Option::None, text@.len());
                    assert forall|k: int| 0 <= k < entry_views(entries@).len() implies 1 <= (
                    #[trigger] entry_views(entries@)[k]).level <= 6 by {
                        let ghs = heading_views(headings@);
                        assert(entries_of(ghs).len() == ghs.len());
                        assert(0 <= k < ghs.len());
                        assert(entry_views(entries@)[k] == entries_of(ghs)[k]);
                        assert(entries_of(ghs)[k].level == ghs[k].level);
                    }
                    lemma_keep_levels(entry_views(entries@), cfg.max_level as int, 0);
                }
                let kept = filter_entries(&entries, cfg.max_level);
                proof {
                    assert forall|k: int| 0 <= k < kept@.len() implies 1 <= (
                    #[trigger] kept@[k])@.level <= 6 by {
                        assert(entry_views(kept@).len() == kept@.len());
                        assert(kept@[k]@ == entry_views(kept@)[k]);
                        assert(entry_views(kept@)[k] == keep_entries(
                            entry_views(entries@),
                            cfg.max_level as int,
                        )[k]);
                    }
                }
                let toc = render_entries(&kept);
                let out = splice_exec(&text, &toc, m.start, m.end);
                Ok(out)
            },
        }
    }
}

/// Idempotence of absence: a document in which the marker's token sequence
/// never occurs is returned unchanged, provided its line endings are
/// already bare line feeds.
pub proof fn lemma_no_marker_no_change(content: Seq<u8>, marker: Seq<u8>, max: int)
    requires
        normalize_crlf(content) == content,
        find_marker_spec(tokens_of(content, true), tokens_of(marker, false)) is None,
    ensures
        spec_add_toc(content, marker, max) == content,
{
}

} // verus!
