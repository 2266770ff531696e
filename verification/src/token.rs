//! The token stream the pipeline works on: each markdown event reduced to its
//! shape (text, inline code, heading boundaries, or other), its byte span in
//! the source, and a canonical serialized form used for equality tests.

use vstd::prelude::*;

use crate::text::bytes_eq;
use pulldown_cmark::{Event, Options, Parser, Tag, TagEnd};

verus! {

/// Spec-level shape of one tokenizer event.
pub enum GTokenKind {
    Text,
    Code,
    HeadingOpen { level: int, id: Option<Seq<u8>> },
    HeadingClose,
    Other,
}

/// Spec-level token: shape, byte span, canonical serialized form.
pub struct GToken {
    pub kind: GTokenKind,
    pub start: int,
    pub end: int,
    pub repr: Seq<u8>,
}

/// Shape of one tokenizer event. Heading openers carry the heading level and,
/// when the host syntax declares one, an explicit anchor identifier.
pub enum TokenKind {
    Text,
    Code,
    HeadingOpen { level: u32, id: Option<Vec<u8>> },
    HeadingClose,
    Other,
}

/// One tokenizer event with its byte span `[start, end)` into the source text.
pub struct Token {
    pub kind: TokenKind,
    pub start: usize,
    pub end: usize,
    pub repr: Vec<u8>,
}

impl View for TokenKind {
    type V = GTokenKind;

    open spec fn view(&self) -> GTokenKind {
        match self {
            TokenKind::Text => GTokenKind::Text,
            TokenKind::Code => GTokenKind::Code,
            TokenKind::HeadingOpen { level, id } => GTokenKind::HeadingOpen {
                level: *level as int,
                id: match id {
                    Some(v) => Some(v@),
                    None => None,
                },
            },
            TokenKind::HeadingClose => GTokenKind::HeadingClose,
            TokenKind::Other => GTokenKind::Other,
        }
    }
}

impl View for Token {
    type V = GToken;

    open spec fn view(&self) -> GToken {
        GToken {
            kind: self.kind@,
            start: self.start as int,
            end: self.end as int,
            repr: self.repr@,
        }
    }
}

pub open spec fn token_views(ts: Seq<Token>) -> Seq<GToken> {
    ts.map_values(|t: Token| t@)
}

/// A token whose span lies within a text of length `n` and whose heading
/// level, if any, is one the tokenizer can produce.
pub open spec fn wf_token(t: GToken, n: nat) -> bool {
    &&& 0 <= t.start <= t.end <= n
    &&& (t.kind matches GTokenKind::HeadingOpen { level, .. } ==> 1 <= level <= 6)
}

pub open spec fn wf_tokens(ts: Seq<GToken>, n: nat) -> bool {
    forall|i: int| 0 <= i < ts.len() ==> wf_token(#[trigger] ts[i], n)
}

/// What the markdown tokenizer yields for the given UTF-8 text: each event's
/// shape, byte span, and canonical serialized form, in stream order.
/// `extended` selects the extension set used for documents (tables,
/// footnotes, strikethrough, task lists, heading attributes); markers are
/// tokenized without extensions.
pub uninterp spec fn tokens_of(text: Seq<u8>, extended: bool) -> Seq<GToken>;

/// The tokenizer's event type, opaque here; only `kind_of` looks inside it.
#[verifier::external_type_specification]
#[verifier::external_body]
pub struct ExEvent<'a>(Event<'a>);

/// Relies on pulldown_cmark's `Event` and `Tag` variants: reduces one event
/// to the shape the pipeline reads, moving the heading level and explicit
/// identifier out of a heading opener.
#[verifier::external_body]
fn kind_of(e: &Event<'_>) -> TokenKind {
    match e {
        Event::Start(Tag::Heading { level, id, .. }) => TokenKind::HeadingOpen {
            level: *level as u32,
            id: id.as_ref().map(|v| v.as_bytes().to_vec()),
        },
        Event::End(TagEnd::Heading(_)) => TokenKind::HeadingClose,
        Event::Text(_) => TokenKind::Text,
        Event::Code(_) => TokenKind::Code,
        _ => TokenKind::Other,
    }
}

/// Relies on pulldown_cmark's `Parser` with `into_offset_iter`: a
/// deterministic event stream over the text, each event paired with its byte
/// range in the source, heading levels between 1 and 6. Input that is not
/// valid UTF-8 yields no events. Each event's serialized form is its
/// serde_json rendering, which two events share exactly when they are equal,
/// since string payloads serialize by content.
#[verifier::external_body]
pub(crate) fn tokenize(text: &[u8], extended: bool) -> (r: Vec<Token>)
    ensures
        token_views(r@) == tokens_of(text@, extended),
        wf_tokens(token_views(r@), text@.len()),
{
    let s = match core::str::from_utf8(text) { Ok(s) => s, Err(_) => return Vec::new() };
    let opts = if extended {
        Options::ENABLE_TABLES | Options::ENABLE_FOOTNOTES | Options::ENABLE_STRIKETHROUGH
            | Options::ENABLE_TASKLISTS | Options::ENABLE_HEADING_ATTRIBUTES
    } else {
        Options::empty()
    };
    let mut out = Vec::new();
    for (e, span) in Parser::new_ext(s, opts).into_offset_iter() {
        let repr = serde_json::to_vec(&e).unwrap_or_default();
        out.push(Token { kind: kind_of(&e), start: span.start, end: span.end, repr });
    }
    out
}

/// Two tokens stand for equal tokenizer events: same shape and same
/// canonical serialized form.
pub open spec fn tok_eq(a: GToken, b: GToken) -> bool {
    a.kind == b.kind && a.repr == b.repr
}

pub(crate) fn token_matches(a: &Token, b: &Token) -> (r: bool)
    ensures
        r == tok_eq(a@, b@),
{
    let kinds_eq = match (&a.kind, &b.kind) {
        (TokenKind::Text, TokenKind::Text) => true,
        (TokenKind::Code, TokenKind::Code) => true,
        (TokenKind::HeadingClose, TokenKind::HeadingClose) => true,
        (TokenKind::Other, TokenKind::Other) => true,
        (
            TokenKind::HeadingOpen { level: la, id: ia },
            TokenKind::HeadingOpen { level: lb, id: ib },
        ) => la == lb && match (ia, ib) {
            (None, None) => true,
            (Some(va), Some(vb)) => bytes_eq(va.as_slice(), vb.as_slice()),
            _ => false,
        },
        _ => false,
    };
    if kinds_eq {
        bytes_eq(a.repr.as_slice(), b.repr.as_slice())
    } else {
        false
    }
}

} // verus!
