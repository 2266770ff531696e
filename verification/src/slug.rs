//! Anchor assignment: heading text is normalized to a URL-safe identifier
//! (alphanumerics, `_` and `-` kept lower-cased, whitespace mapped to `-`,
//! everything else dropped), and duplicate anchors get a numeric suffix. A
//! heading with an author-declared identifier uses it verbatim and never
//! enters the duplicate counter.

use vstd::prelude::*;

use crate::chars::{
    char_alphanumeric, char_span_views, char_spans, char_spans_of, char_whitespace, is_alnum_char,
    is_space_char, GCharSpan,
};
use crate::headings::{heading_views, GHeading, Heading};
use crate::text::{bytes_eq, clone_bytes};

verus! {

/// ASCII upper-case letters mapped to lower case; all other bytes unchanged.
pub open spec fn lower8(b: u8) -> u8 {
    if 65 <= b && b <= 90 {
        (b + 32) as u8
    } else {
        b
    }
}

/// What one character contributes to the anchor: its bytes lower-cased if it
/// is kept, a dash if it is whitespace, nothing otherwise.
pub open spec fn norm_one(text: Seq<u8>, c: GCharSpan) -> Seq<u8> {
    if is_alnum_char(c.ch) || c.ch == '_' || c.ch == '-' {
        text.subrange(c.start, c.end).map_values(|b: u8| lower8(b))
    } else if is_space_char(c.ch) {
        seq![45u8]
    } else {
        Seq::empty()
    }
}

pub open spec fn norm_from(text: Seq<u8>, spans: Seq<GCharSpan>, i: int) -> Seq<u8>
    decreases spans.len() - i,
{
    if i < 0 || i >= spans.len() {
        Seq::empty()
    } else {
        norm_one(text, spans[i]) + norm_from(text, spans, i + 1)
    }
}

/// The anchor the heading text normalizes to.
pub open spec fn normalize_anchor(text: Seq<u8>) -> Seq<u8> {
    norm_from(text, char_spans_of(text), 0)
}

/// Normalizes heading text into an anchor, character by character.
pub(crate) fn normalize_id(text: &Vec<u8>) -> (r: Vec<u8>)
    ensures
        r@ == normalize_anchor(text@),
{
    let spans = char_spans(text.as_slice());
    let ghost gs = char_spans_of(text@);
    let mut out: Vec<u8> = Vec::new();
    let mut k: usize = 0;
    while k < spans.len()
        invariant
            k <= spans@.len(),
            char_span_views(spans@) == gs,
            forall|j: int|
                0 <= j < spans@.len() ==> 0 <= (#[trigger] spans@[j])@.start < spans@[j]@.end
                    <= text@.len(),
            normalize_anchor(text@) == out@ + norm_from(text@, gs, k as int),
        decreases spans@.len() - k,
    {
        let ch = spans[k].ch;
        let ghost out_before = out@;
        if char_alphanumeric(ch) || ch == '_' || ch == '-' {
            let a = spans[k].start;
            let b = spans[k].end;
            let mut p: usize = a;
            while p < b
                invariant
                    a <= p <= b <= text@.len(),
                    out@ =~= out_before + text@.subrange(a as int, p as int).map_values(
                        |x: u8| lower8(x),
                    ),
                decreases b - p,
            {
                let x = text[p];
                let y = if 65 <= x && x <= 90 {
                    x + 32
                } else {
                    x
                };
                out.push(y);
                proof {
                    assert(text@.subrange(a as int, p + 1 as int).map_values(|x: u8| lower8(x))
                        =~= text@.subrange(a as int, p as int).map_values(|x: u8| lower8(x))
                        + seq![lower8(text@[p as int])]);
                }
                p = p + 1;
            }
            proof {
                assert(out@ =~= out_before + norm_one(text@, gs[k as int]));
            }
        } else if char_whitespace(ch) {
            out.push(45);
        }
        proof {
            assert(out@ =~= out_before + norm_one(text@, gs[k as int]));
            assert(out@ + norm_from(text@, gs, k + 1 as int) =~= out_before + norm_from(
                text@,
                gs,
                k as int,
            ));
        }
        k = k + 1;
    }
    proof {
        assert(out@ =~= normalize_anchor(text@));
    }
    out
}

/// The decimal digits of `n`, most significant first.
pub open spec fn dec_of(n: nat) -> Seq<u8>
    decreases n,
{
    if n < 10 {
        seq![(48 + n) as u8]
    } else {
        dec_of(n / 10) + seq![(48 + (n % 10)) as u8]
    }
}

fn push_decimal(out: &mut Vec<u8>, n: usize)
    ensures
        final(out)@ == old(out)@ + dec_of(n as nat),
    decreases n,
{
    if n < 10 {
        out.push(48 + (n as u8));
        proof {
            assert(out@ =~= old(out)@ + dec_of(n as nat));
        }
    } else {
        push_decimal(out, n / 10);
        out.push(48 + ((n % 10) as u8));
        proof {
            assert(out@ =~= old(out)@ + dec_of(n as nat));
        }
    }
}

/// One line of the table of contents before rendering: level, link text,
/// anchor.
pub struct GEntry {
    pub level: int,
    pub text: Seq<u8>,
    pub anchor: Seq<u8>,
}

pub struct Entry {
    pub level: u32,
    pub text: Vec<u8>,
    pub anchor: Vec<u8>,
}

impl View for Entry {
    type V = GEntry;

    open spec fn view(&self) -> GEntry {
        GEntry { level: self.level as int, text: self.text@, anchor: self.anchor@ }
    }
}

pub open spec fn entry_views(es: Seq<Entry>) -> Seq<GEntry> {
    es.map_values(|e: Entry| e@)
}

/// How many of the first `upto` headings carry no explicit identifier and
/// normalize to `key`.
pub open spec fn count_prior(hs: Seq<GHeading>, upto: int, key: Seq<u8>) -> int
    decreases upto,
{
    if upto <= 0 || upto > hs.len() {
        0
    } else {
        count_prior(hs, upto - 1, key) + if hs[upto - 1].id is None && normalize_anchor(
            hs[upto - 1].text,
        ) == key {
            1int
        } else {
            0int
        }
    }
}

/// Which occurrence (0-indexed) of its own normalized text the `k`-th
/// heading is, counting only headings without an explicit identifier.
pub open spec fn occurrence(hs: Seq<GHeading>, k: int) -> int {
    count_prior(hs, k, normalize_anchor(hs[k].text))
}

/// The anchor the `k`-th heading receives: its explicit identifier verbatim
/// if it has one; otherwise its normalized text, with `-N` appended for the
/// N-th duplicate (N >= 1).
pub open spec fn anchor_of(hs: Seq<GHeading>, k: int) -> Seq<u8> {
    match hs[k].id {
        Some(id) => id,
        None => {
            let base = normalize_anchor(hs[k].text);
            if occurrence(hs, k) == 0 {
                base
            } else {
                base + seq![45u8] + dec_of(occurrence(hs, k) as nat)
            }
        },
    }
}

pub(crate) fn clone_entry(e: &Entry) -> (r: Entry)
    ensures
        r@ == e@,
{
    Entry { level: e.level, text: clone_bytes(&e.text), anchor: clone_bytes(&e.anchor) }
}

/// Every heading paired with its anchor, in document order.
pub open spec fn entries_of(hs: Seq<GHeading>) -> Seq<GEntry> {
    Seq::new(
        hs.len(),
        |k: int| GEntry { level: hs[k].level, text: hs[k].text, anchor: anchor_of(hs, k) },
    )
}

/// At most `upto` headings can have matched a key among the first `upto`.
pub proof fn lemma_count_prior_le(hs: Seq<GHeading>, upto: int, key: Seq<u8>)
    ensures
        0 <= count_prior(hs, upto, key) <= if upto < 0 {
            0int
        } else {
            upto
        },
    decreases upto,
{
    if 0 < upto <= hs.len() {
        lemma_count_prior_le(hs, upto - 1, key);
    }
}

/// One step of the duplicate count: the heading at `upto` contributes
/// exactly when it has no explicit identifier and normalizes to `key`.
pub proof fn lemma_count_prior_step(hs: Seq<GHeading>, upto: int, key: Seq<u8>)
    requires
        0 <= upto < hs.len(),
    ensures
        count_prior(hs, upto + 1, key) == count_prior(hs, upto, key) + if hs[upto].id is None
            && normalize_anchor(hs[upto].text) == key {
            1int
        } else {
            0int
        },
{
}

/// Whether some registry slot holds this key.
pub open spec fn key_in(keys: Seq<Vec<u8>>, key: Seq<u8>) -> bool {
    exists|p: int| 0 <= p < keys.len() && keys[p]@ == key
}

fn find_slot(keys: &Vec<Vec<u8>>, key: &Vec<u8>) -> (r: Option<usize>)
    ensures
        match r {
            Some(p) => p < keys@.len() && keys@[p as int]@ == key@,
            None => forall|p: int| 0 <= p < keys@.len() ==> (#[trigger] keys@[p])@ != key@,
        },
{
    let mut p: usize = 0;
    while p < keys.len()
        invariant
            p <= keys@.len(),
            forall|q: int| 0 <= q < p ==> (#[trigger] keys@[q])@ != key@,
        decreases keys@.len() - p,
    {
        if bytes_eq(keys[p].as_slice(), key.as_slice()) {
            return Some(p);
        }
        p = p + 1;
    }
    None
}

/// Assigns each heading its anchor, keeping a per-document registry of how
/// often each normalized anchor has been used.
pub(crate) fn assign_slugs(hs: &Vec<Heading>) -> (r: Vec<Entry>)
    ensures
        entry_views(r@) == entries_of(heading_views(hs@)),
{
    let ghost ghs = heading_views(hs@);
    let mut keys: Vec<Vec<u8>> = Vec::new();
    let mut counts: Vec<usize> = Vec::new();
    let mut out: Vec<Entry> = Vec::new();
    let mut i: usize = 0;
    while i < hs.len()
        invariant
            i <= hs@.len(),
            ghs == heading_views(hs@),
            keys@.len() == counts@.len(),
            entry_views(out@) == entries_of(ghs).subrange(0, i as int),
            forall|p: int, q: int| 0 <= p < q < keys@.len() ==> (#[trigger] keys@[p])@ != (
            #[trigger] keys@[q])@,
            forall|p: int|
                0 <= p < keys@.len() ==> (#[trigger] counts@[p]) as int == count_prior(
                    ghs,
                    i as int,
                    keys@[p]@,
                ) && counts@[p] > 0,
            forall|key: Seq<u8>|
                #[trigger] count_prior(ghs, i as int, key) > 0 ==> key_in(keys@, key),
        decreases hs@.len() - i,
    {
        let h = &hs[i];
        let ghost out_before = out@;
        proof {
            assert(h@ == ghs[i as int]);
        }
        match &h.id {
            Some(id) => {
                let e = Entry {
                    level: h.level,
                    text: clone_bytes(&h.text),
                    anchor: clone_bytes(id),
                };
                proof {
                    assert(e@ == entries_of(ghs)[i as int]);
                    assert(ghs[i as int].id is Some);
                    assert forall|key: Seq<u8>| #[trigger] count_prior(ghs, i + 1, key)
                        == count_prior(ghs, i as int, key) by {
                        lemma_count_prior_step(ghs, i as int, key);
                    };
                }
                out.push(e);
            },
            None => {
                let base = normalize_id(&h.text);
                proof {
                    assert(ghs[i as int].id is None);
                    assert(base@ == normalize_anchor(ghs[i as int].text));
                    assert forall|key: Seq<u8>| #[trigger] count_prior(ghs, i + 1, key)
                        == count_prior(ghs, i as int, key) + if key == base@ {
                        1int
                    } else {
                        0int
                    } by {
                        lemma_count_prior_step(ghs, i as int, key);
                    };
                }
                match find_slot(&keys, &base) {
                    Some(p) => {
                        let n = counts[p];
                        proof {
                            lemma_count_prior_le(ghs, i as int, base@);
                            assert(occurrence(ghs, i as int) == n as int);
                        }
                        let mut anchor = clone_bytes(&base);
                        if n > 0 {
                            anchor.push(45);
                            push_decimal(&mut anchor, n);
                        }
                        proof {
                            assert(anchor@ =~= anchor_of(ghs, i as int));
                        }
                        let e = Entry { level: h.level, text: clone_bytes(&h.text), anchor };
                        proof {
                            assert(e@ == entries_of(ghs)[i as int]);
                        }
                        out.push(e);
                        counts.set(p, n + 1);
                    },
                    None => {
                        proof {
                            lemma_count_prior_le(ghs, i as int, base@);
                            if count_prior(ghs, i as int, base@) > 0 {
                                assert(key_in(keys@, base@));
                                let p = choose|p: int|
                                    0 <= p < keys@.len() && keys@[p]@ == base@;
                                assert(keys@[p]@ != base@);
                            }
                            assert(count_prior(ghs, i as int, base@) == 0);
                            assert(occurrence(ghs, i as int) == 0);
                        }
                        let anchor = clone_bytes(&base);
                        let e = Entry { level: h.level, text: clone_bytes(&h.text), anchor };
                        proof {
                            assert(e@ == entries_of(ghs)[i as int]);
                        }
                        let ghost keys_before = keys@;
                        out.push(e);
                        keys.push(base);
                        counts.push(1);
                        proof {
                            assert(keys@[keys@.len() - 1]@ == normalize_anchor(
                                ghs[i as int].text,
                            ));
                            assert forall|key: Seq<u8>| key_in(keys_before, key) implies key_in(
                                keys@,
                                key,
                            ) by {
                                let p = choose|p: int|
                                    0 <= p < keys_before.len() && keys_before[p]@ == key;
                                assert(keys@[p]@ == key);
                            };
                        }
                    },
                }
            },
        }
        proof {
            assert(entry_views(out_before).len() == out_before.len());
            assert(out_before.len() == i as int);
            assert(out@.len() == i + 1);
            assert(out@.drop_last() =~= out_before);
            assert(entry_views(out@) =~= entry_views(out_before) + seq![out@[i as int]@]);
            assert(out@[i as int]@ == entries_of(ghs)[i as int]);
            assert(entry_views(out@) =~= entries_of(ghs).subrange(0, i + 1 as int));
        }
        i = i + 1;
    }
    proof {
        assert(entries_of(ghs).subrange(0, ghs.len() as int) =~= entries_of(ghs));
    }
    out
}

proof fn lemma_count_all_same(hs: Seq<GHeading>, upto: int)
    requires
        0 <= upto <= hs.len(),
        forall|j: int| 0 <= j < hs.len() ==> (#[trigger] hs[j]).id is None,
        forall|j: int|
            0 <= j < hs.len() ==> normalize_anchor((#[trigger] hs[j]).text) == normalize_anchor(
                hs[0].text,
            ),
    ensures
        count_prior(hs, upto, normalize_anchor(hs[0].text)) == upto,
    decreases upto,
{
    if upto > 0 {
        lemma_count_all_same(hs, upto - 1);
    }
}

/// Duplicate anchors: when N headings share one normalized text and none
/// carries an explicit identifier, the k-th of them (0-indexed) anchors to
/// the bare normalized text for k = 0 and to the text followed by `-k` for
/// every later k.
pub proof fn lemma_duplicate_anchors(hs: Seq<GHeading>, k: int)
    requires
        0 <= k < hs.len(),
        forall|j: int| 0 <= j < hs.len() ==> (#[trigger] hs[j]).id is None,
        forall|j: int|
            0 <= j < hs.len() ==> normalize_anchor((#[trigger] hs[j]).text) == normalize_anchor(
                hs[0].text,
            ),
    ensures
        k == 0 ==> entries_of(hs)[k].anchor == normalize_anchor(hs[k].text),
        k > 0 ==> entries_of(hs)[k].anchor == normalize_anchor(hs[k].text) + seq![45u8] + dec_of(
            k as nat,
        ),
{
    lemma_count_all_same(hs, k);
    assert(normalize_anchor(hs[k].text) == normalize_anchor(hs[0].text));
    assert(occurrence(hs, k) == k);
}

proof fn lemma_count_prior_prefix(hs1: Seq<GHeading>, hs2: Seq<GHeading>, upto: int, key: Seq<u8>)
    requires
        upto <= hs1.len(),
        upto <= hs2.len(),
        forall|j: int| 0 <= j < upto ==> hs1[j] == hs2[j],
    ensures
        count_prior(hs1, upto, key) == count_prior(hs2, upto, key),
    decreases upto,
{
    if upto > 0 {
        lemma_count_prior_prefix(hs1, hs2, upto - 1, key);
    }
}

proof fn lemma_count_insert(xs: Seq<GHeading>, h: GHeading, ys: Seq<GHeading>, j: int, key: Seq<u8>)
    requires
        h.id is Some,
        0 <= j <= ys.len(),
    ensures
        count_prior(xs + seq![h] + ys, xs.len() + 1 + j, key) == count_prior(
            xs + ys,
            xs.len() + j,
            key,
        ),
    decreases j,
{
    let with = xs + seq![h] + ys;
    let without = xs + ys;
    if j == 0 {
        lemma_count_prior_step(with, xs.len() as int, key);
        assert(with[xs.len() as int] == h);
        lemma_count_prior_prefix(with, without, xs.len() as int, key);
    } else {
        lemma_count_insert(xs, h, ys, j - 1, key);
        lemma_count_prior_step(with, xs.len() + j, key);
        lemma_count_prior_step(without, xs.len() + j - 1, key);
        assert(with[xs.len() + j] == ys[j - 1]);
        assert(without[xs.len() + j - 1] == ys[j - 1]);
    }
}

/// Explicit identifier bypass: a heading carrying an author-declared
/// identifier anchors to it verbatim, and its presence changes no other
/// heading's anchor — it consumes no slot of the duplicate counter.
pub proof fn lemma_explicit_id_bypass(
    xs: Seq<GHeading>,
    h: GHeading,
    hid: Seq<u8>,
    ys: Seq<GHeading>,
)
    requires
        h.id == Some(hid),
    ensures
        entries_of(xs + seq![h] + ys)[xs.len() as int].anchor == hid,
        entries_of(xs + seq![h] + ys).subrange(0, xs.len() as int) == entries_of(
            xs + ys,
        ).subrange(0, xs.len() as int),
        entries_of(xs + seq![h] + ys).subrange(
            xs.len() as int + 1,
            (xs + seq![h] + ys).len() as int,
        ) == entries_of(xs + ys).subrange(xs.len() as int, (xs + ys).len() as int),
{
    let with = xs + seq![h] + ys;
    let without = xs + ys;
    assert(with[xs.len() as int] == h);
    assert forall|k: int| 0 <= k < xs.len() implies entries_of(with)[k] == entries_of(
        without,
    )[k] by {
        assert(with[k] == xs[k]);
        assert(without[k] == xs[k]);
        lemma_count_prior_prefix(with, without, k, normalize_anchor(xs[k].text));
    }
    assert(entries_of(with).subrange(0, xs.len() as int) =~= entries_of(without).subrange(
        0,
        xs.len() as int,
    ));
    let tail_with = entries_of(with).subrange(xs.len() as int + 1, with.len() as int);
    let tail_without = entries_of(without).subrange(xs.len() as int, without.len() as int);
    assert forall|k: int| 0 <= k < ys.len() implies #[trigger] tail_with[k] == tail_without[k] by {
        assert(with[xs.len() + 1 + k] == ys[k]);
        assert(without[xs.len() + k] == ys[k]);
        lemma_count_insert(xs, h, ys, k, normalize_anchor(ys[k].text));
        assert(tail_with[k] == entries_of(with)[xs.len() + 1 + k]);
        assert(tail_without[k] == entries_of(without)[xs.len() + k]);
    }
    assert(tail_with =~= tail_without);
}

} // verus!
