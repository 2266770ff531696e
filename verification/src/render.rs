//! Rendering the list: raw heading levels are remapped so that no entry
//! nests more than one step deeper than its predecessor, and each entry
//! becomes an indented bullet line linking to its anchor.

use vstd::prelude::*;

use crate::slug::{clone_entry, entry_views, Entry, GEntry};
use crate::text::push_all;

verus! {

/// The entries at levels up to `max` among those from `i` on, in order.
pub open spec fn keep_from(entries: Seq<GEntry>, max: int, i: int) -> Seq<GEntry>
    decreases entries.len() - i,
{
    if i < 0 || i >= entries.len() {
        Seq::empty()
    } else if entries[i].level <= max {
        seq![entries[i]] + keep_from(entries, max, i + 1)
    } else {
        keep_from(entries, max, i + 1)
    }
}

/// The entries kept for rendering: those at levels up to `max`. Anchors were
/// assigned over the full list beforehand, so a heading dropped here has
/// still advanced the duplicate counter.
pub open spec fn keep_entries(entries: Seq<GEntry>, max: int) -> Seq<GEntry> {
    keep_from(entries, max, 0)
}

/// Keeps the entries at levels up to `max`.
pub(crate) fn filter_entries(entries: &Vec<Entry>, max: u32) -> (r: Vec<Entry>)
    ensures
        entry_views(r@) == keep_entries(entry_views(entries@), max as int),
{
    let ghost ges = entry_views(entries@);
    let mut out: Vec<Entry> = Vec::new();
    let mut i: usize = 0;
    proof {
        assert(entry_views(out@) + keep_from(ges, max as int, 0) =~= keep_from(
            ges,
            max as int,
            0,
        ));
    }
    while i < entries.len()
        invariant
            i <= entries@.len(),
            ges == entry_views(entries@),
            keep_entries(ges, max as int) == entry_views(out@) + keep_from(
                ges,
                max as int,
                i as int,
            ),
        decreases entries@.len() - i,
    {
        if entries[i].level <= max {
            let e = clone_entry(&entries[i]);
            let ghost out_before = out@;
            let ghost rest = keep_from(ges, max as int, i + 1 as int);
            out.push(e);
            proof {
                assert(entry_views(out@) =~= entry_views(out_before) + seq![ges[i as int]]);
                assert(entry_views(out_before) + (seq![ges[i as int]] + rest) =~= entry_views(
                    out@,
                ) + rest);
            }
        }
        i = i + 1;
    }
    proof {
        assert(entry_views(out@) + keep_from(ges, max as int, entries@.len() as int)
            =~= entry_views(out@));
        assert(entry_views(out@) =~= keep_entries(ges, max as int));
    }
    out
}

/// Filtering by level keeps every entry's level within the tokenizer's
/// range.
pub proof fn lemma_keep_levels(entries: Seq<GEntry>, max: int, i: int)
    requires
        forall|k: int| 0 <= k < entries.len() ==> 1 <= (#[trigger] entries[k]).level <= 6,
    ensures
        forall|k: int|
            0 <= k < keep_from(entries, max, i).len() ==> 1 <= (#[trigger] keep_from(
                entries,
                max,
                i,
            )[k]).level <= 6,
    decreases entries.len() - i,
{
    if i < 0 || i >= entries.len() {
    } else {
        lemma_keep_levels(entries, max, i + 1);
        let cur = keep_from(entries, max, i);
        let rest = keep_from(entries, max, i + 1);
        assert forall|k: int| 0 <= k < cur.len() implies 1 <= (#[trigger] cur[k]).level <= 6 by {
            if entries[i].level <= max {
                if k == 0 {
                    assert(cur[0] == entries[i]);
                } else {
                    assert(cur[k] == rest[k - 1]);
                }
            } else {
                assert(cur[k] == rest[k]);
            }
        }
    }
}

/// The level an entry is rendered at: clamped to one step below the last
/// emitted level when the raw level would skip deeper.
pub open spec fn clamp_level(last: int, lvl: int) -> int {
    if last + 1 < lvl {
        last + 1
    } else {
        lvl
    }
}

/// The reference level carried to the next entry: a clamped entry leaves it
/// unchanged; any other entry sets it to its own raw level.
pub open spec fn next_last(last: int, lvl: int) -> int {
    if last + 1 < lvl {
        last
    } else {
        lvl
    }
}

pub open spec fn emit_from(levels: Seq<int>, i: int, last: int) -> Seq<int>
    decreases levels.len() - i,
{
    if i < 0 || i >= levels.len() {
        Seq::empty()
    } else {
        seq![clamp_level(last, levels[i])] + emit_from(levels, i + 1, next_last(last, levels[i]))
    }
}

/// The levels actually rendered, starting from the first entry's raw level.
pub open spec fn emitted_levels(levels: Seq<int>) -> Seq<int> {
    if levels.len() == 0 {
        Seq::empty()
    } else {
        emit_from(levels, 0, levels[0])
    }
}

/// The smallest raw level in the list; 1 when the list is empty.
pub open spec fn seq_min(levels: Seq<int>) -> int
    decreases levels.len(),
{
    if levels.len() == 0 {
        1
    } else if levels.len() == 1 {
        levels[0]
    } else if levels[levels.len() - 1] < seq_min(levels.drop_last()) {
        levels[levels.len() - 1]
    } else {
        seq_min(levels.drop_last())
    }
}

pub open spec fn spaces(n: int) -> Seq<u8> {
    if n <= 0 {
        Seq::empty()
    } else {
        Seq::new(n as nat, |i: int| 32u8)
    }
}

/// One rendered line: indent, `* [`, the text, `](#`, the anchor, `)`,
/// newline.
pub open spec fn render_line(e: GEntry, emitted: int, min: int) -> Seq<u8> {
    spaces(2 * (emitted - min)) + seq![42u8, 32u8, 91u8] + e.text + seq![93u8, 40u8, 35u8]
        + e.anchor + seq![41u8, 10u8]
}

pub open spec fn render_from(entries: Seq<GEntry>, i: int, last: int, min: int) -> Seq<u8>
    decreases entries.len() - i,
{
    if i < 0 || i >= entries.len() {
        Seq::empty()
    } else {
        render_line(entries[i], clamp_level(last, entries[i].level), min) + render_from(
            entries,
            i + 1,
            next_last(last, entries[i].level),
            min,
        )
    }
}

pub open spec fn entry_levels(entries: Seq<GEntry>) -> Seq<int> {
    entries.map_values(|e: GEntry| e.level)
}

/// The rendered table of contents: one line per entry, in order; empty when
/// there are no entries.
pub open spec fn render_toc(entries: Seq<GEntry>) -> Seq<u8> {
    if entries.len() == 0 {
        Seq::empty()
    } else {
        render_from(entries, 0, entries[0].level, seq_min(entry_levels(entries)))
    }
}

/// Depth clamp: no emitted level exceeds its predecessor by more than one.
pub proof fn lemma_depth_clamp(levels: Seq<int>)
    ensures
        forall|k: int|
            0 < k < emitted_levels(levels).len() ==> #[trigger] emitted_levels(levels)[k]
                <= emitted_levels(levels)[k - 1] + 1,
{
    if levels.len() > 0 {
        lemma_emit_from_steps(levels, 0, levels[0]);
    }
}

/// Each element of `emit_from` lies between `last` and `last + 1` relative
/// to the running reference level, so consecutive emitted levels rise by at
/// most one.
proof fn lemma_emit_from_steps(levels: Seq<int>, i: int, last: int)
    ensures
        forall|k: int|
            0 < k < emit_from(levels, i, last).len() ==> #[trigger] emit_from(levels, i, last)[k]
                <= emit_from(levels, i, last)[k - 1] + 1,
        emit_from(levels, i, last).len() > 0 ==> emit_from(levels, i, last)[0] <= last + 1,
    decreases levels.len() - i,
{
    if i < 0 || i >= levels.len() {
    } else {
        let nl = next_last(last, levels[i]);
        lemma_emit_from_steps(levels, i + 1, nl);
        let e = emit_from(levels, i, last);
        let rest = emit_from(levels, i + 1, nl);
        assert(e[0] == clamp_level(last, levels[i]));
        assert(clamp_level(last, levels[i]) >= nl);
        assert forall|k: int| 0 < k < e.len() implies #[trigger] e[k] <= e[k - 1] + 1 by {
            if k == 1 {
                assert(e[1] == rest[0]);
                assert(rest[0] <= nl + 1);
            } else {
                assert(e[k] == rest[k - 1]);
                assert(e[k - 1] == rest[k - 2]);
            }
        }
    }
}

/// Every emitted level stays at or above the smallest raw level, provided
/// the reference level does.
proof fn lemma_emit_from_ge(levels: Seq<int>, i: int, last: int, m: int)
    requires
        last >= m,
        forall|k: int| 0 <= k < levels.len() ==> #[trigger] levels[k] >= m,
    ensures
        forall|k: int|
            0 <= k < emit_from(levels, i, last).len() ==> #[trigger] emit_from(levels, i, last)[k]
                >= m,
    decreases levels.len() - i,
{
    if i < 0 || i >= levels.len() {
    } else {
        let nl = next_last(last, levels[i]);
        lemma_emit_from_ge(levels, i + 1, nl, m);
        let e = emit_from(levels, i, last);
        let rest = emit_from(levels, i + 1, nl);
        assert forall|k: int| 0 <= k < e.len() implies #[trigger] e[k] >= m by {
            if k > 0 {
                assert(e[k] == rest[k - 1]);
            }
        }
    }
}

/// The smallest level really is a lower bound.
proof fn lemma_seq_min_le(levels: Seq<int>)
    ensures
        forall|k: int| 0 <= k < levels.len() ==> #[trigger] levels[k] >= seq_min(levels),
    decreases levels.len(),
{
    if levels.len() > 1 {
        lemma_seq_min_le(levels.drop_last());
        assert forall|k: int| 0 <= k < levels.len() implies #[trigger] levels[k] >= seq_min(
            levels,
        ) by {
            if k < levels.len() - 1 {
                assert(levels.drop_last()[k] == levels[k]);
            }
        }
    }
}

/// Renders the table of contents for the given entries.
#[verifier::rlimit(30)]
pub(crate) fn render_entries(entries: &Vec<Entry>) -> (r: Vec<u8>)
    requires
        forall|k: int|
            0 <= k < entries@.len() ==> 1 <= (#[trigger] entries@[k])@.level
                <= 6,
    ensures
        r@ == render_toc(entry_views(entries@)),
{
    let ghost ges = entry_views(entries@);
    let mut out: Vec<u8> = Vec::new();
    if entries.len() == 0 {
        return out;
    }
    // The smallest raw level in the list.
    let mut min: u32 = entries[0].level;
    let mut k: usize = 1;
    while k < entries.len()
        invariant
            1 <= k <= entries@.len(),
            entries@.len() > 0,
            ges == entry_views(entries@),
            forall|j: int| 0 <= j < entries@.len() ==> 1 <= (#[trigger] entries@[j])@.level <= 6,
            1 <= min <= 6,
            min as int == seq_min(entry_levels(ges).take(k as int)),
        decreases entries@.len() - k,
    {
        proof {
            lemma_seq_min_take_step(entry_levels(ges), k as int);
        }
        if entries[k].level < min {
            min = entries[k].level;
        }
        k = k + 1;
    }
    proof {
        assert(entry_levels(ges).take(ges.len() as int) =~= entry_levels(ges));
    }
    let mut last: u32 = entries[0].level;
    let mut i: usize = 0;
    proof {
        lemma_seq_min_le(entry_levels(ges));
        assert(entry_levels(ges)[0] == ges[0].level);
        assert(out@ + render_from(ges, 0, last as int, min as int) =~= render_from(
            ges,
            0,
            last as int,
            min as int,
        ));
    }
    while i < entries.len()
        invariant
            i <= entries@.len(),
            entries@.len() > 0,
            ges == entry_views(entries@),
            forall|j: int| 0 <= j < entries@.len() ==> 1 <= (#[trigger] entries@[j])@.level <= 6,
            1 <= min <= 6,
            min as int == seq_min(entry_levels(ges)),
            forall|j: int| 0 <= j < ges.len() ==> #[trigger] entry_levels(ges)[j] >= min,
            min <= last <= 6,
            render_toc(ges) == out@ + render_from(ges, i as int, last as int, min as int),
        decreases entries@.len() - i,
    {
        let lvl = entries[i].level;
        proof {
            assert(entry_levels(ges)[i as int] == ges[i as int].level);
            assert(lvl >= min);
        }
        let emitted: u32 = if last + 1 < lvl {
            last + 1
        } else {
            lvl
        };
        let ghost out_line_start = out@;
        let width: u32 = 2 * (emitted - min);
        let mut w: u32 = 0;
        proof {
            assert(out@ =~= out_line_start + spaces(0));
        }
        while w < width
            invariant
                w <= width,
                out@ == out_line_start + spaces(w as int),
            decreases width - w,
        {
            out.push(32);
            proof {
                assert(out@ =~= out_line_start + spaces(w as int + 1));
            }
            w = w + 1;
        }
        out.push(42);
        out.push(32);
        out.push(91);
        push_all(&mut out, entries[i].text.as_slice());
        out.push(93);
        out.push(40);
        out.push(35);
        push_all(&mut out, entries[i].anchor.as_slice());
        out.push(41);
        out.push(10);
        proof {
            assert(out@ =~= out_line_start + render_line(
                ges[i as int],
                emitted as int,
                min as int,
            ));
            assert(out@ + render_from(ges, i + 1 as int, next_last(last as int, lvl as int), min as int)
                =~= render_toc(ges));
        }
        if last + 1 < lvl {
        } else {
            last = lvl;
        }
        i = i + 1;
    }
    out
}

/// Extending the prefix by one element can only keep or lower its minimum.
proof fn lemma_seq_min_take_step(levels: Seq<int>, k: int)
    requires
        1 <= k < levels.len(),
    ensures
        seq_min(levels.take(k + 1)) == if levels[k] < seq_min(levels.take(k)) {
            levels[k]
        } else {
            seq_min(levels.take(k))
        },
{
    assert(levels.take(k + 1).drop_last() =~= levels.take(k));
    assert(levels.take(k + 1)[k] == levels[k]);
}

} // verus!
