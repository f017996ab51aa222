//! Selection ranges: the ranges of the syntax nodes around each selection,
//! innermost first, that the editor steps through.

use vstd::prelude::*;
use ropey::Rope;
use crate::position::{lsp_range_to_kakoune, range_defined, range_to_kakoune};
use crate::rope::rope_lines;
use crate::strings::{decimal, push_char, push_decimal, push_str};
use crate::text_edit::join_spaced;
use crate::types::{kakoune_le, kakoune_range_text, KakounePosition, KakouneRange, OffsetEncoding, Range};

verus! {

/// Which end of each selection holds the cursor: the start when the main
/// selection's cursor is at its start; and the cursor of each selection.
pub open spec fn cursors_of(position: KakounePosition, selections: Seq<KakouneRange>) -> (bool, Seq<KakounePosition>) {
    let left = position == selections[0].start;
    (left, selections.map_values(|r: KakouneRange| if left { r.start } else { r.end }))
}

/// Whether the cursor is left of the anchor, and the cursor of each
/// selection; see `cursors_of`.
pub fn selection_range_cursors(position: KakounePosition, selections: &Vec<KakouneRange>) -> (res: (bool, Vec<KakounePosition>))
    requires
        selections.len() >= 1,
    ensures
        (res.0, res.1@) == cursors_of(position, selections@),
{
    let s0 = selections[0].start;
    let left = position.line == s0.line && position.column == s0.column;
    let mut cursors: Vec<KakounePosition> = Vec::new();
    let mut i: usize = 0;
    while i < selections.len()
        invariant
            i <= selections.len(),
            left == (position == selections@[0].start),
            cursors@ == selections@.take(i as int).map_values(|r: KakouneRange| if left { r.start } else { r.end }),
        decreases selections.len() - i,
    {
        let r = selections[i];
        if left {
            cursors.push(r.start);
        } else {
            cursors.push(r.end);
        }
        assert(selections@.take(i + 1).map_values(|r: KakouneRange| if left { r.start } else { r.end })
            =~= selections@.take(i as int).map_values(|r: KakouneRange| if left { r.start } else { r.end }).push(
            if left { r.start } else { r.end },
        ));
        i = i + 1;
    }
    assert(selections@.take(i as int) =~= selections@);
    (left, cursors)
}

/// A range turned around when the cursor is left of the anchor.
pub open spec fn oriented(r: KakouneRange, left: bool) -> KakouneRange {
    if left { KakouneRange { start: r.end, end: r.start } } else { r }
}

/// The length of the longest chain.
pub open spec fn longest(chains: Seq<Seq<Range>>) -> nat
    decreases chains.len(),
{
    if chains.len() == 0 {
        0
    } else {
        let rest = longest(chains.drop_last());
        if chains.last().len() > rest { chains.last().len() } else { rest }
    }
}

/// The ranges at depth `i` of the chains of the first `n` selections that
/// reach that depth, in Kakoune's notation.
pub open spec fn level_items(
    chains: Seq<Seq<Range>>,
    n: int,
    i: int,
    lines: Seq<Seq<char>>,
    enc: OffsetEncoding,
    left: bool,
) -> Seq<Seq<char>>
    decreases n,
{
    if n <= 0 {
        Seq::empty()
    } else {
        let rest = level_items(chains, n - 1, i, lines, enc, left);
        if i < chains[n - 1].len() {
            rest.push(kakoune_range_text(oriented(range_to_kakoune(chains[n - 1][i], lines, enc), left)))
        } else {
            rest
        }
    }
}

/// The selections of depth `i`: one word, in single quotes.
pub open spec fn level_text(chains: Seq<Seq<Range>>, i: int, lines: Seq<Seq<char>>, enc: OffsetEncoding, left: bool) -> Seq<char> {
    seq!['\''] + join_spaced(level_items(chains, chains.len() as int, i, lines, enc, left)) + seq!['\'']
}


/// Whether a range lies within another.
pub open spec fn range_within(haystack: KakouneRange, needle: KakouneRange) -> bool {
    kakoune_le(haystack.start, needle.start) && kakoune_le(needle.end, haystack.end)
}

/// The depth, from `i` on, of the first range of a chain that goes beyond a
/// selection, or the last depth if none does.
pub open spec fn first_beyond(chain: Seq<Range>, selection: KakouneRange, lines: Seq<Seq<char>>, enc: OffsetEncoding, i: int) -> int
    decreases chain.len() - i,
{
    if i < 0 || i + 1 >= chain.len() || !range_within(selection, range_to_kakoune(chain[i], lines, enc)) {
        i
    } else {
        first_beyond(chain, selection, lines, enc, i + 1)
    }
}

/// The command that offers the selection ranges: for each depth, the
/// ranges of all selections at that depth; and the depth to select first, the
/// smallest range of the main selection that goes beyond it (one-based).
pub open spec fn selection_range_command(
    client: Seq<char>,
    chains: Seq<Seq<Range>>,
    selections: Seq<KakouneRange>,
    left: bool,
    lines: Seq<Seq<char>>,
    enc: OffsetEncoding,
) -> Seq<char> {
    let levels = Seq::new(longest(chains), |i: int| level_text(chains, i, lines, enc, left));
    "evaluate-commands -client "@ + client + " %[\n    set-option window lsp_selection_ranges "@ + join_spaced(levels)
        + "\n    lsp-selection-range-show\n    lsp-selection-range-select "@ + decimal(
        (first_beyond(chains[0], selections[0], lines, enc, 0) + 1) as nat,
    ) + "\n]"@
}

proof fn lemma_join_spaced_push(parts: Seq<Seq<char>>, x: Seq<char>)
    ensures
        join_spaced(parts.push(x)) == if parts.len() == 0 { x } else { join_spaced(parts) + seq![' '] + x },
{
    assert(parts.push(x).drop_last() =~= parts);
}

/// Whether one position comes no later than another; see `kakoune_le`.
fn position_le(a: KakounePosition, b: KakounePosition) -> (res: bool)
    ensures
        res == kakoune_le(a, b),
{
    a.line < b.line || (a.line == b.line && a.column <= b.column)
}

/// The command that offers the selection ranges; see `selection_range_command`.
/// `chains` holds, for each selection, the ranges of the nodes around it,
/// innermost first.
pub fn editor_selection_range(
    client: &str,
    chains: &Vec<Vec<Range>>,
    selections: &Vec<KakouneRange>,
    is_cursor_left_of_anchor: bool,
    text: &Rope,
    offset_encoding: OffsetEncoding,
) -> (res: String)
    requires
        chains.len() >= 1,
        selections.len() >= 1,
        forall|s: int| 0 <= s < chains.len() ==> (#[trigger] chains@[s]).len() >= 1,
        forall|s: int, i: int|
            0 <= s < chains.len() && 0 <= i < chains@[s].len() ==> range_defined(
                #[trigger] chains@[s]@[i],
                rope_lines(*text),
                offset_encoding,
            ),
    ensures
        res@ == selection_range_command(
            client@,
            chains@.map_values(|c: Vec<Range>| c@),
            selections@,
            is_cursor_left_of_anchor,
            rope_lines(*text),
            offset_encoding,
        ),
{
    let ghost cs = chains@.map_values(|c: Vec<Range>| c@);
    let ghost lines = rope_lines(*text);
    let left = is_cursor_left_of_anchor;
    let n = chains.len();
    // The depth of the deepest chain.
    let mut depth: usize = 0;
    let mut s: usize = 0;
    while s < n
        invariant
            s <= n,
            n == chains.len(),
            cs == chains@.map_values(|c: Vec<Range>| c@),
            depth == longest(cs.take(s as int)),
        decreases n - s,
    {
        assert(cs.take(s + 1).drop_last() =~= cs.take(s as int));
        if chains[s].len() > depth {
            depth = chains[s].len();
        }
        s = s + 1;
    }
    assert(cs.take(n as int) =~= cs);
    let ghost levels = Seq::new(longest(cs), |i: int| level_text(cs, i, lines, offset_encoding, left));
    let mut ranges = String::new();
    let mut i: usize = 0;
    while i < depth
        invariant
            i <= depth,
            depth == longest(cs),
            n == chains.len(),
            cs == chains@.map_values(|c: Vec<Range>| c@),
            lines == rope_lines(*text),
            levels == Seq::new(longest(cs), |i: int| level_text(cs, i, lines, offset_encoding, left)),
            forall|s: int, i: int|
                0 <= s < chains.len() && 0 <= i < chains@[s].len() ==> range_defined(
                    #[trigger] chains@[s]@[i],
                    rope_lines(*text),
                    offset_encoding,
                ),
            ranges@ == join_spaced(levels.take(i as int)),
        decreases depth - i,
    {
        let mut level = String::new();
        let mut any = false;
        let mut t: usize = 0;
        while t < n
            invariant
                t <= n,
                n == chains.len(),
                cs == chains@.map_values(|c: Vec<Range>| c@),
                lines == rope_lines(*text),
                forall|s: int, i: int|
                    0 <= s < chains.len() && 0 <= i < chains@[s].len() ==> range_defined(
                        #[trigger] chains@[s]@[i],
                        rope_lines(*text),
                        offset_encoding,
                    ),
                level@ == join_spaced(level_items(cs, t as int, i as int, lines, offset_encoding, left)),
                any == (level_items(cs, t as int, i as int, lines, offset_encoding, left).len() > 0),
            decreases n - t,
        {
            let chain = &chains[t];
            if i < chain.len() {
                let r = lsp_range_to_kakoune(&chain[i], text, offset_encoding);
                let o = if left { KakouneRange { start: r.end, end: r.start } } else { r };
                let ghost item = kakoune_range_text(o);
                proof {
                    assert(cs[t as int] == chain@);
                    lemma_join_spaced_push(level_items(cs, t as int, i as int, lines, offset_encoding, left), item);
                }
                if any {
                    push_char(&mut level, ' ');
                }
                o.push_to(&mut level);
                any = true;
            } else {
                proof {
                    assert(cs[t as int] == chain@);
                }
            }
            t = t + 1;
        }
        proof {
            assert(levels[i as int] == level_text(cs, i as int, lines, offset_encoding, left));
            assert(levels.take(i + 1).drop_last() =~= levels.take(i as int));
            lemma_join_spaced_push(levels.take(i as int), levels[i as int]);
        }
        if i > 0 {
            push_char(&mut ranges, ' ');
        }
        push_char(&mut ranges, '\'');
        push_str(&mut ranges, level.as_str());
        push_char(&mut ranges, '\'');
        i = i + 1;
    }
    assert(levels.take(depth as int) =~= levels);
    // The depth to select first.
    let main = selections[0];
    let chain = &chains[0];
    let mut k: usize = 0;
    proof {
        assert(cs[0] == chain@);
    }
    while k + 1 < chain.len()
        invariant
            k < chain.len(),
            chain@ == cs[0],
            lines == rope_lines(*text),
            forall|i: int| 0 <= i < chain@.len() ==> range_defined(#[trigger] chain@[i], lines, offset_encoding),
            first_beyond(cs[0], main, lines, offset_encoding, 0) == first_beyond(cs[0], main, lines, offset_encoding, k as int),
        ensures
            first_beyond(cs[0], main, lines, offset_encoding, 0) == k,
        decreases chain.len() - k,
    {
        let r = lsp_range_to_kakoune(&chain[k], text, offset_encoding);
        if !(position_le(main.start, r.start) && position_le(r.end, main.end)) {
            break;
        }
        k = k + 1;
    }
    let mut out = String::new();
    push_str(&mut out, "evaluate-commands -client ");
    push_str(&mut out, client);
    push_str(&mut out, " %[\n    set-option window lsp_selection_ranges ");
    push_str(&mut out, ranges.as_str());
    push_str(&mut out, "\n    lsp-selection-range-show\n    lsp-selection-range-select ");
    push_decimal(&mut out, k as u64 + 1);
    push_str(&mut out, "\n]");
    assert(out@ =~= selection_range_command(client@, cs, selections@, left, lines, offset_encoding));
    out
}

} // verus!
