//! Document symbols of a buffer: text objects (selecting the symbol around
//! the cursor, or moving to the next or previous symbol boundary), the
//! breadcrumbs of the symbols that enclose a line, and the menu of symbols
//! and the search for one by name.

use vstd::prelude::*;
use crate::language_features::document_symbol::{first_line, kind_named, kind_prefix, mapping_view, push_first_line, symbol_kind_from_string, symbol_kind_prefix, SymbolKind};
use crate::util::{editor_escape, editor_escape_spec, editor_quote, editor_quote_spec};
use crate::strings::{push_char, push_str, str_eq};
use crate::capabilities::{join_strs, join_with, strings_view};
use crate::types::{kakoune_position_text, kakoune_range_text};
use crate::position::{kakoune_position_to_lsp, lsp_position_to_kakoune, lsp_range_to_kakoune, position_defined, position_to_kakoune, range_defined, range_to_kakoune};
use crate::rope::{rope_line, rope_lines, slice_len_chars, slice_len_utf16_cu, utf8_len, utf16_len};
use crate::utf8_lemmas::{lemma_utf8_len_take_ge, lemma_utf16_len_bounds, lemma_utf16_len_take_le_utf8, lemma_utf16_len_take_strict};
use crate::types::{KakounePosition, KakouneRange, OffsetEncoding, Position, Range};
use ropey::Rope;

verus! {

/// A document symbol: its name, kind, whole range, the range of its name,
/// and its children.
pub struct SymbolNode {
    pub name: String,
    pub kind: SymbolKind,
    pub range: Range,
    /// The range of the symbol's name.
    pub selection_range: Range,
    pub children: Vec<SymbolNode>,
}

/// Whether the objects are about symbols of this kind: every kind when none
/// is asked for.
pub open spec fn kind_wanted(kinds: Seq<SymbolKind>, kind: SymbolKind) -> bool {
    kinds.len() == 0 || kinds.contains(kind)
}

/// Whether the ranges of symbols `i..` of a list, and of their descendants,
/// convert to Kakoune's ranges.
pub open spec fn symbols_defined(items: Seq<SymbolNode>, i: int, lines: Seq<Seq<char>>, enc: OffsetEncoding) -> bool
    decreases items, items.len() - i,
{
    if i < 0 || i >= items.len() {
        true
    } else {
        proof {
            assert(decreases_to!(items => items[i]));
            assert(decreases_to!(items[i] => items[i].children));
            assert(decreases_to!(items[i].children => items[i].children@));
        }
        range_defined(items[i].range, lines, enc)
            && symbols_defined(items[i].children@, 0, lines, enc)
            && symbols_defined(items, i + 1, lines, enc)
    }
}

/// The boundaries of the wanted symbols among symbols `i..` of a list and
/// their descendants, depth first: each symbol's Kakoune range, once with its
/// start and once with its end.
pub open spec fn flat_ranges(items: Seq<SymbolNode>, i: int, kinds: Seq<SymbolKind>, lines: Seq<Seq<char>>, enc: OffsetEncoding) -> Seq<(KakouneRange, KakounePosition)>
    decreases items, items.len() - i,
{
    if i < 0 || i >= items.len() {
        Seq::empty()
    } else {
        proof {
            assert(decreases_to!(items => items[i]));
            assert(decreases_to!(items[i] => items[i].children));
            assert(decreases_to!(items[i].children => items[i].children@));
        }
        let r = range_to_kakoune(items[i].range, lines, enc);
        (if kind_wanted(kinds, items[i].kind) { seq![(r, r.start), (r, r.end)] } else { Seq::empty() })
            + flat_ranges(items[i].children@, 0, kinds, lines, enc)
            + flat_ranges(items, i + 1, kinds, lines, enc)
    }
}

/// The boundaries of a symbol itself, when it is wanted.
pub open spec fn own_boundaries(s: SymbolNode, kinds: Seq<SymbolKind>, lines: Seq<Seq<char>>, enc: OffsetEncoding) -> Seq<(KakouneRange, KakounePosition)> {
    let r = range_to_kakoune(s.range, lines, enc);
    if kind_wanted(kinds, s.kind) { seq![(r, r.start), (r, r.end)] } else { Seq::empty() }
}

proof fn lemma_flat_ranges_unfold(items: Seq<SymbolNode>, i: int, kinds: Seq<SymbolKind>, lines: Seq<Seq<char>>, enc: OffsetEncoding)
    requires
        0 <= i < items.len(),
    ensures
        flat_ranges(items, i, kinds, lines, enc) == own_boundaries(items[i], kinds, lines, enc)
            + flat_ranges(items[i].children@, 0, kinds, lines, enc) + flat_ranges(items, i + 1, kinds, lines, enc),
        symbols_defined(items, i, lines, enc) == (range_defined(items[i].range, lines, enc)
            && symbols_defined(items[i].children@, 0, lines, enc) && symbols_defined(items, i + 1, lines, enc)),
{
}

/// Whether `kinds` holds `kind`.
fn kinds_contain(kinds: &Vec<SymbolKind>, kind: SymbolKind) -> (res: bool)
    ensures
        res == kinds@.contains(kind),
{
    let mut i: usize = 0;
    while i < kinds.len()
        invariant
            i <= kinds@.len(),
            forall|k: int| 0 <= k < i ==> kinds@[k] != kind,
        decreases kinds.len() - i,
    {
        if kinds[i].0 == kind.0 {
            assert(kinds@[i as int] == kind);
            return true;
        }
        i += 1;
    }
    false
}

/// Appends the boundaries of the wanted symbols of a list; see `flat_ranges`.
fn push_flat_ranges(
    out: &mut Vec<(KakouneRange, KakounePosition)>,
    items: &Vec<SymbolNode>,
    kinds: &Vec<SymbolKind>,
    text: &Rope,
    offset_encoding: OffsetEncoding,
)
    requires
        symbols_defined(items@, 0, rope_lines(*text), offset_encoding),
    ensures
        final(out)@ == old(out)@ + flat_ranges(items@, 0, kinds@, rope_lines(*text), offset_encoding),
    decreases items,
{
    let ghost lines = rope_lines(*text);
    let ghost start = out@;
    let mut i: usize = 0;
    while i < items.len()
        invariant
            i <= items@.len(),
            lines == rope_lines(*text),
            symbols_defined(items@, i as int, lines, offset_encoding),
            start + flat_ranges(items@, 0, kinds@, lines, offset_encoding)
                == out@ + flat_ranges(items@, i as int, kinds@, lines, offset_encoding),
        decreases items.len() - i,
    {
        let s = &items[i];
        let ghost before = out@;
        proof {
            lemma_flat_ranges_unfold(items@, i as int, kinds@, lines, offset_encoding);
        }
        let wanted = kinds.len() == 0 || kinds_contain(kinds, s.kind);
        if wanted {
            let r = lsp_range_to_kakoune(&s.range, text, offset_encoding);
            out.push((r, r.start));
            out.push((r, r.end));
        }
        let ghost mid = out@;
        assert(mid =~= before + own_boundaries(items@[i as int], kinds@, lines, offset_encoding));
        proof {
            assert(decreases_to!(items => items@[i as int].children));
        }
        push_flat_ranges(out, &s.children, kinds, text, offset_encoding);
        assert(out@ =~= before + own_boundaries(items@[i as int], kinds@, lines, offset_encoding)
            + flat_ranges(items@[i as int].children@, 0, kinds@, lines, offset_encoding));
        i += 1;
    }
    proof {
        assert(flat_ranges(items@, i as int, kinds@, lines, offset_encoding) =~= Seq::<(KakouneRange, KakounePosition)>::empty());
        assert(out@ =~= start + flat_ranges(items@, 0, kinds@, lines, offset_encoding));
    }
}

/// The boundaries of the wanted symbols; see `flat_ranges`.
pub fn flat_symbol_ranges(
    symbols: &Vec<SymbolNode>,
    kinds: &Vec<SymbolKind>,
    text: &Rope,
    offset_encoding: OffsetEncoding,
) -> (res: Vec<(KakouneRange, KakounePosition)>)
    requires
        symbols_defined(symbols@, 0, rope_lines(*text), offset_encoding),
    ensures
        res@ == flat_ranges(symbols@, 0, kinds@, rope_lines(*text), offset_encoding),
{
    let mut out: Vec<(KakouneRange, KakounePosition)> = Vec::new();
    push_flat_ranges(&mut out, symbols, kinds, text, offset_encoding);
    assert(out@ =~= flat_ranges(symbols@, 0, kinds@, rope_lines(*text), offset_encoding));
    out
}

// ---------------------------------------------------------------------------
// Order of boundaries

/// Kakoune's order on positions: line first, then column.
pub open spec fn position_less(a: KakounePosition, b: KakounePosition) -> bool {
    a.line < b.line || (a.line == b.line && a.column < b.column)
}

/// Whether `a` comes strictly after `b` when boundaries are ordered by their
/// positions, ascending, or descending when `descending`.
pub open spec fn after_in_order(a: KakounePosition, b: KakounePosition, descending: bool) -> bool {
    if descending { position_less(a, b) } else { position_less(b, a) }
}

/// `s` with `x` inserted after every element that does not come after it.
pub open spec fn insert_in_order(s: Seq<(KakouneRange, KakounePosition)>, x: (KakouneRange, KakounePosition), descending: bool) -> Seq<(KakouneRange, KakounePosition)>
    decreases s.len(),
{
    if s.len() == 0 {
        seq![x]
    } else if after_in_order(s.last().1, x.1, descending) {
        insert_in_order(s.drop_last(), x, descending).push(s.last())
    } else {
        s.push(x)
    }
}

/// Boundaries ordered by position, equal positions keeping their order.
pub open spec fn order_boundaries(s: Seq<(KakouneRange, KakounePosition)>, descending: bool) -> Seq<(KakouneRange, KakounePosition)>
    decreases s.len(),
{
    if s.len() == 0 {
        Seq::empty()
    } else {
        insert_in_order(order_boundaries(s.drop_last(), descending), s.last(), descending)
    }
}

proof fn lemma_insert_in_order(s: Seq<(KakouneRange, KakounePosition)>, x: (KakouneRange, KakounePosition), descending: bool, p: int)
    requires
        0 <= p <= s.len(),
        forall|k: int| p <= k < s.len() ==> after_in_order(#[trigger] s[k].1, x.1, descending),
        p > 0 ==> !after_in_order(s[p - 1].1, x.1, descending),
    ensures
        insert_in_order(s, x, descending) == s.insert(p, x),
    decreases s.len(),
{
    if s.len() == p {
        assert(s.insert(p, x) =~= s.push(x));
    } else {
        let d = s.drop_last();
        assert forall|k: int| p <= k < d.len() implies after_in_order(#[trigger] d[k].1, x.1, descending) by {
            assert(d[k] == s[k]);
        }
        lemma_insert_in_order(d, x, descending, p);
        assert(d.insert(p, x).push(s.last()) =~= s.insert(p, x));
    }
}

/// Whether `a` comes strictly after `b`; see `after_in_order`.
fn comes_after(a: KakounePosition, b: KakounePosition, descending: bool) -> (res: bool)
    ensures
        res == after_in_order(a, b, descending),
{
    if descending {
        a.line < b.line || (a.line == b.line && a.column < b.column)
    } else {
        b.line < a.line || (b.line == a.line && b.column < a.column)
    }
}

/// Orders boundaries by position, keeping the order of equal ones; see
/// `order_boundaries`.
fn sort_boundaries(ranges: &Vec<(KakouneRange, KakounePosition)>, descending: bool) -> (res: Vec<(KakouneRange, KakounePosition)>)
    ensures
        res@ == order_boundaries(ranges@, descending),
{
    let mut out: Vec<(KakouneRange, KakounePosition)> = Vec::new();
    let mut i: usize = 0;
    assert(ranges@.take(0) =~= Seq::<(KakouneRange, KakounePosition)>::empty());
    while i < ranges.len()
        invariant
            i <= ranges@.len(),
            out@ == order_boundaries(ranges@.take(i as int), descending),
        decreases ranges.len() - i,
    {
        let x = ranges[i];
        let mut p: usize = out.len();
        while p > 0 && comes_after(out[p - 1].1, x.1, descending)
            invariant
                p <= out@.len(),
                forall|k: int| p <= k < out@.len() ==> after_in_order(#[trigger] out@[k].1, x.1, descending),
            decreases p,
        {
            p -= 1;
        }
        proof {
            lemma_insert_in_order(out@, x, descending, p as int);
            assert(ranges@.take(i + 1).drop_last() =~= ranges@.take(i as int));
            assert(ranges@.take(i + 1).last() == x);
        }
        out.insert(p, x);
        i += 1;
    }
    assert(ranges@.take(i as int) =~= ranges@);
    out
}

// ---------------------------------------------------------------------------
// The walk over boundaries

/// Whether a boundary position lies before the end of its line, as the
/// forward walk checks it: the position's LSP character is below the number
/// of chars of the line (of its UTF-16 code units, for UTF-16).
pub open spec fn before_line_end(p: KakounePosition, lines: Seq<Seq<char>>, enc: OffsetEncoding) -> bool {
    let line = lines[p.line - 1];
    let col = p.column - 1;
    match enc {
        OffsetEncoding::Utf8 => col < line.len(),
        OffsetEncoding::Utf16 => col < utf8_len(line),
    }
}

/// Where a walk starts over after passing the last boundary: before every
/// position going forward, after every position going backward.
pub open spec fn walk_start(forward: bool) -> KakounePosition {
    if forward {
        KakounePosition { line: 0, column: 0 }
    } else {
        KakounePosition { line: u32::MAX, column: u32::MAX }
    }
}

/// A boundary that the walk can take: its position is its range's start or
/// end, on a line of the text, and not the last possible position.
pub open spec fn boundary_valid(b: (KakouneRange, KakounePosition), lines: Seq<Seq<char>>) -> bool {
    &&& b.1 == b.0.start || b.1 == b.0.end
    &&& 1 <= b.1.line
    &&& b.1.line - 1 < lines.len()
    &&& 1 <= b.1.column
    &&& !(b.1.line == u32::MAX && b.1.column == u32::MAX)
}

/// Whether every boundary is valid.
pub open spec fn boundaries_valid(bs: Seq<(KakouneRange, KakounePosition)>, lines: Seq<Seq<char>>) -> bool {
    forall|k: int| 0 <= k < bs.len() ==> boundary_valid(#[trigger] bs[k], lines)
}

/// Whether the walk, at `cur`, counts boundary `b`: always when selecting
/// around the cursor; going forward, a boundary after `cur` (on a later line,
/// or before its line's end); going backward, a boundary before `cur`.
pub open spec fn walk_hit(b: (KakouneRange, KakounePosition), cur: KakounePosition, forward: bool, surround: bool, lines: Seq<Seq<char>>, enc: OffsetEncoding) -> bool {
    if surround {
        true
    } else if forward {
        position_less(cur, b.1) && (cur.line < b.1.line || before_line_end(b.1, lines, enc))
    } else {
        position_less(b.1, cur)
    }
}

/// The state of a walk is one it can go on from.
pub open spec fn walk_ok(ranges: Seq<(KakouneRange, KakounePosition)>, lines: Seq<Seq<char>>, forward: bool, surround: bool, count: nat, cur: KakounePosition, i: int, fresh: bool) -> bool {
    &&& count >= 1
    &&& 0 <= i < ranges.len()
    &&& boundaries_valid(ranges, lines)
    &&& fresh ==> i == 0 && cur == walk_start(forward) && !surround
}

/// The symbol range that a walk ends on. From boundary `i`, at position
/// `cur`, with `count` boundaries still to count: each counted boundary moves
/// the walk to its range's end (forward) or start (backward); the range of
/// the last one counted is the result. Past the last boundary the walk
/// starts over from the first, except around the cursor, where it ends.
pub open spec fn object_walk(
    ranges: Seq<(KakouneRange, KakounePosition)>,
    lines: Seq<Seq<char>>,
    enc: OffsetEncoding,
    forward: bool,
    surround: bool,
    count: nat,
    cur: KakounePosition,
    i: int,
    fresh: bool,
) -> KakouneRange
    decreases count, (if fresh { 0int } else { 1int }), ranges.len() - i
    when walk_ok(ranges, lines, forward, surround, count, cur, i, fresh)
{
    let b = ranges[i];
    let hit = walk_hit(b, cur, forward, surround, lines, enc);
    let next_count: nat = if hit { (count - 1) as nat } else { count };
    let next_cur = if !surround && hit { if forward { b.0.end } else { b.0.start } } else { cur };
    if next_count == 0 {
        b.0
    } else if i + 1 < ranges.len() {
        object_walk(ranges, lines, enc, forward, surround, next_count, next_cur, i + 1, false)
    } else if surround {
        b.0
    } else {
        object_walk(ranges, lines, enc, forward, surround, next_count, walk_start(forward), 0, true)
    }
}

/// Whether a boundary position lies before the end of its line; see
/// `before_line_end`.
fn boundary_before_line_end(p: KakounePosition, text: &Rope, offset_encoding: OffsetEncoding) -> (res: bool)
    requires
        1 <= p.line,
        p.line - 1 < rope_lines(*text).len(),
        1 <= p.column,
    ensures
        res == before_line_end(p, rope_lines(*text), offset_encoding),
{
    let lsp = kakoune_position_to_lsp(&p, text, offset_encoding);
    let line = rope_line(text, lsp.line as usize);
    let res = match offset_encoding {
        OffsetEncoding::Utf8 => (lsp.character as usize) < slice_len_chars(&line),
        OffsetEncoding::Utf16 => (lsp.character as usize) < slice_len_utf16_cu(&line),
    };
    proof {
        let l = rope_lines(*text)[p.line - 1];
        lemma_utf8_len_take_ge(l, l.len() as int);
        assert(l.take(l.len() as int) =~= l);
        lemma_utf16_len_take_le_utf8(l, l.len() as int);
        lemma_utf16_len_bounds(l);
        if offset_encoding == OffsetEncoding::Utf16 && p.column - 1 < utf8_len(l) {
            let k = choose|k: int|
                0 <= k < l.len() && utf8_len(l.take(k)) <= p.column - 1 < utf8_len(l.take(k + 1)) && lsp.character
                    == #[trigger] utf16_len(l.take(k));
            lemma_utf16_len_take_strict(l, k, l.len() as int);
        }
    }
    res
}

/// Whether position `a` comes before position `b`; see `position_less`.
fn less(a: KakounePosition, b: KakounePosition) -> (res: bool)
    ensures
        res == position_less(a, b),
{
    a.line < b.line || (a.line == b.line && a.column < b.column)
}

/// The symbol range that a walk over the boundaries ends on, from the first
/// boundary at the cursor; see `object_walk`.
fn walk_boundaries(
    ranges: &Vec<(KakouneRange, KakounePosition)>,
    cursor: KakounePosition,
    count: u32,
    forward: bool,
    surround: bool,
    text: &Rope,
    offset_encoding: OffsetEncoding,
) -> (res: KakouneRange)
    requires
        ranges@.len() > 0,
        count >= 1,
        boundaries_valid(ranges@, rope_lines(*text)),
    ensures
        res == object_walk(ranges@, rope_lines(*text), offset_encoding, forward, surround, count as nat, cursor, 0, false),
{
    let ghost lines = rope_lines(*text);
    let ghost goal = object_walk(ranges@, lines, offset_encoding, forward, surround, count as nat, cursor, 0, false);
    let mut left: u32 = count;
    let mut cur = cursor;
    let mut i: usize = 0;
    let mut fresh = false;
    loop
        invariant
            lines == rope_lines(*text),
            i < ranges@.len(),
            walk_ok(ranges@, lines, forward, surround, left as nat, cur, i as int, fresh),
            goal == object_walk(ranges@, lines, offset_encoding, forward, surround, left as nat, cur, i as int, fresh),
            goal == object_walk(ranges@, rope_lines(*text), offset_encoding, forward, surround, count as nat, cursor, 0, false),
        decreases left, (if fresh { 0int } else { 1int }), ranges@.len() - i,
    {
        let b = ranges[i];
        assert(boundary_valid(ranges@[i as int], lines));
        let hit = if surround {
            true
        } else if forward {
            less(cur, b.1) && (cur.line < b.1.line || boundary_before_line_end(b.1, text, offset_encoding))
        } else {
            less(b.1, cur)
        };
        assert(hit == walk_hit(b, cur, forward, surround, lines, offset_encoding));
        let ghost old_count = left as nat;
        let ghost old_cur = cur;
        let ghost old_fresh = fresh;
        assert(goal == object_walk(ranges@, lines, offset_encoding, forward, surround, old_count, old_cur, i as int, old_fresh));
        if hit {
            left -= 1;
            if !surround {
                cur = if forward { b.0.end } else { b.0.start };
            }
        }
        if left == 0 {
            return b.0;
        }
        let n = ranges.len();
        if i < n - 1 {
            i += 1;
            fresh = false;
        } else {
            if surround {
                return b.0;
            }
            cur = if forward {
                KakounePosition { line: 0, column: 0 }
            } else {
                KakounePosition { line: u32::MAX, column: u32::MAX }
            };
            i = 0;
            fresh = true;
        }
    }
}

// ---------------------------------------------------------------------------
// Selections

/// Whether a range holds the cursor: from its start, up to before its end.
pub open spec fn holds_cursor(r: KakouneRange, cursor: KakounePosition) -> bool {
    !position_less(cursor, r.start) && position_less(cursor, r.end)
}

/// The boundaries of the ranges that hold the cursor, in order.
pub open spec fn around_cursor(bs: Seq<(KakouneRange, KakounePosition)>, cursor: KakounePosition) -> Seq<(KakouneRange, KakounePosition)>
    decreases bs.len(),
{
    if bs.len() == 0 {
        Seq::empty()
    } else {
        around_cursor(bs.drop_last(), cursor) + if holds_cursor(bs.last().0, cursor) { seq![bs.last()] } else { Seq::empty() }
    }
}

/// The modes that select the symbol around the cursor.
pub open spec fn is_surround(mode: Seq<char>) -> bool {
    mode == "<a-i>"@ || mode == "<a-a>"@
}

/// The modes that go backward, to the previous symbol boundary.
pub open spec fn is_backward(mode: Seq<char>) -> bool {
    mode == "["@ || mode == "{"@
}

/// The modes there are.
pub open spec fn mode_known(mode: Seq<char>) -> bool {
    is_surround(mode) || mode == "["@ || mode == "]"@ || mode == "{"@ || mode == "}"@
}

/// The earlier of two positions.
pub open spec fn position_min(a: KakounePosition, b: KakounePosition) -> KakounePosition {
    if position_less(b, a) { b } else { a }
}

/// The later of two positions.
pub open spec fn position_max(a: KakounePosition, b: KakounePosition) -> KakounePosition {
    if position_less(b, a) { a } else { b }
}

/// The new selection for a selection whose walk ended on symbol range `sym`:
/// the symbol itself around the cursor; from the cursor to the symbol's
/// start (`[`) or end (`]`); from the selection's far end to the symbol's
/// start (`{`) or from its near end to the symbol's end (`}`).
pub open spec fn mode_selection(mode: Seq<char>, sel: KakouneRange, cursor: KakounePosition, sym: KakouneRange) -> KakouneRange {
    if is_surround(mode) {
        sym
    } else if mode == "["@ {
        KakouneRange { start: position_min(cursor, sym.end), end: sym.start }
    } else if mode == "]"@ {
        KakouneRange { start: position_max(cursor, sym.start), end: sym.end }
    } else if mode == "{"@ {
        KakouneRange { start: position_max(sel.start, sel.end), end: sym.start }
    } else {
        KakouneRange { start: position_min(sel.start, sel.end), end: sym.end }
    }
}

/// The count of a request; none counts as one.
pub open spec fn walk_count(count: u32) -> nat {
    if count >= 1 { count as nat } else { 1 }
}

/// The new selections, one per selection that has symbols to walk over.
pub open spec fn object_selections(
    sorted: Seq<(KakouneRange, KakounePosition)>,
    selections: Seq<(KakouneRange, KakounePosition)>,
    mode: Seq<char>,
    count: u32,
    lines: Seq<Seq<char>>,
    enc: OffsetEncoding,
) -> Seq<KakouneRange>
    decreases selections.len(),
{
    if selections.len() == 0 {
        Seq::empty()
    } else {
        let prev = object_selections(sorted, selections.drop_last(), mode, count, lines, enc);
        let sel = selections.last().0;
        let cursor = selections.last().1;
        let rs = if is_surround(mode) { around_cursor(sorted, cursor) } else { sorted };
        if rs.len() == 0 {
            prev
        } else {
            let sym = object_walk(rs, lines, enc, !is_backward(mode), is_surround(mode), walk_count(count), cursor, 0, false);
            prev.push(mode_selection(mode, sel, cursor, sym))
        }
    }
}

/// Why a text object request selects nothing.
#[derive(Clone, Debug, PartialEq, Eq)]
pub enum ObjectError {
    /// A requested symbol kind has no such name.
    InvalidSymbolKind(String),
    /// No symbol of the requested kinds.
    NoMatchingSymbol,
    /// The mode is none of the known ones.
    InvalidMode,
    /// No selection had a symbol around it.
    NoSelectionsRemaining,
}

/// Why a text object request selects nothing, as values.
pub enum ObjectFailure {
    InvalidSymbolKind(Seq<char>),
    NoMatchingSymbol,
    InvalidMode,
    NoSelectionsRemaining,
}

impl View for ObjectError {
    type V = ObjectFailure;

    open spec fn view(&self) -> ObjectFailure {
        match self {
            ObjectError::InvalidSymbolKind(k) => ObjectFailure::InvalidSymbolKind(k@),
            ObjectError::NoMatchingSymbol => ObjectFailure::NoMatchingSymbol,
            ObjectError::InvalidMode => ObjectFailure::InvalidMode,
            ObjectError::NoSelectionsRemaining => ObjectFailure::NoSelectionsRemaining,
        }
    }
}

/// The symbol kinds that these names ask for, or the first name that is no
/// kind's.
pub open spec fn parse_kinds(names: Seq<Seq<char>>) -> Result<Seq<SymbolKind>, Seq<char>>
    decreases names.len(),
{
    if names.len() == 0 {
        Ok(Seq::empty())
    } else {
        match parse_kinds(names.drop_last()) {
            Err(e) => Err(e),
            Ok(ks) => match kind_named(names.last()) {
                None => Err(names.last()),
                Some(k) => Ok(ks.push(k)),
            },
        }
    }
}

/// Whether positions are ordered so that boundaries go descending: for the
/// backward modes and around the cursor.
pub open spec fn sort_descending(mode: Seq<char>) -> bool {
    is_backward(mode) || is_surround(mode)
}

/// What a text object request gives: the new selections, or why there are
/// none.
pub open spec fn object_result(
    symbols: Seq<SymbolNode>,
    kind_names: Seq<Seq<char>>,
    mode: Seq<char>,
    count: u32,
    selections: Seq<(KakouneRange, KakounePosition)>,
    lines: Seq<Seq<char>>,
    enc: OffsetEncoding,
) -> Result<Seq<KakouneRange>, ObjectFailure> {
    match parse_kinds(kind_names) {
        Err(name) => Err(ObjectFailure::InvalidSymbolKind(name)),
        Ok(kinds) => {
            let ranges = flat_ranges(symbols, 0, kinds, lines, enc);
            if ranges.len() == 0 {
                Err(ObjectFailure::NoMatchingSymbol)
            } else if !mode_known(mode) && selections.len() > 0 {
                Err(ObjectFailure::InvalidMode)
            } else {
                let sels = object_selections(order_boundaries(ranges, sort_descending(mode)), selections, mode, count, lines, enc);
                if sels.len() == 0 { Err(ObjectFailure::NoSelectionsRemaining) } else { Ok(sels) }
            }
        },
    }
}

/// A range as `start,end`.
pub open spec fn forward_range_text(r: KakouneRange) -> Seq<char> {
    kakoune_position_text(r.start) + ","@ + kakoune_position_text(r.end)
}

/// The texts of ranges joined by spaces.
pub open spec fn ranges_text(rs: Seq<KakouneRange>) -> Seq<char>
    decreases rs.len(),
{
    if rs.len() == 0 {
        Seq::empty()
    } else if rs.len() == 1 {
        forward_range_text(rs[0])
    } else {
        ranges_text(rs.drop_last()) + " "@ + forward_range_text(rs.last())
    }
}

proof fn lemma_insert_in_order_elements(s: Seq<(KakouneRange, KakounePosition)>, x: (KakouneRange, KakounePosition), descending: bool)
    ensures
        forall|y: (KakouneRange, KakounePosition)| #[trigger] insert_in_order(s, x, descending).contains(y) ==> y == x || s.contains(y),
    decreases s.len(),
{
    if s.len() > 0 && after_in_order(s.last().1, x.1, descending) {
        let d = s.drop_last();
        lemma_insert_in_order_elements(d, x, descending);
        assert forall|y: (KakouneRange, KakounePosition)| #[trigger] insert_in_order(s, x, descending).contains(y) implies y == x || s.contains(y) by {
            let r = insert_in_order(d, x, descending);
            let k = choose|k: int| 0 <= k < r.push(s.last()).len() && r.push(s.last())[k] == y;
            if k < r.len() {
                assert(r.contains(y));
                if y != x {
                    let j = choose|j: int| 0 <= j < d.len() && d[j] == y;
                    assert(s[j] == y);
                }
            } else {
                assert(s[s.len() - 1] == y);
            }
        }
    } else if s.len() > 0 {
        assert forall|y: (KakouneRange, KakounePosition)| #[trigger] insert_in_order(s, x, descending).contains(y) implies y == x || s.contains(y) by {
            let k = choose|k: int| 0 <= k < s.push(x).len() && s.push(x)[k] == y;
            if k < s.len() {
                assert(s[k] == y);
            }
        }
    }
}

/// Ordering boundaries keeps them valid.
proof fn lemma_order_boundaries_valid(s: Seq<(KakouneRange, KakounePosition)>, descending: bool, lines: Seq<Seq<char>>)
    requires
        boundaries_valid(s, lines),
    ensures
        boundaries_valid(order_boundaries(s, descending), lines),
        order_boundaries(s, descending).len() == s.len(),
    decreases s.len(),
{
    if s.len() > 0 {
        let d = s.drop_last();
        assert(boundaries_valid(d, lines)) by {
            assert forall|k: int| 0 <= k < d.len() implies boundary_valid(#[trigger] d[k], lines) by {
                assert(d[k] == s[k]);
            }
        }
        lemma_order_boundaries_valid(d, descending, lines);
        let o = order_boundaries(d, descending);
        lemma_insert_in_order_elements(o, s.last(), descending);
        lemma_insert_in_order_len(o, s.last(), descending);
        let r = insert_in_order(o, s.last(), descending);
        assert forall|k: int| 0 <= k < r.len() implies boundary_valid(#[trigger] r[k], lines) by {
            assert(r.contains(r[k]));
            if r[k] != s.last() {
                let j = choose|j: int| 0 <= j < o.len() && o[j] == r[k];
                assert(boundary_valid(o[j], lines));
            } else {
                assert(boundary_valid(s[s.len() - 1], lines));
            }
        }
    }
}

proof fn lemma_insert_in_order_len(s: Seq<(KakouneRange, KakounePosition)>, x: (KakouneRange, KakounePosition), descending: bool)
    ensures
        insert_in_order(s, x, descending).len() == s.len() + 1,
    decreases s.len(),
{
    if s.len() > 0 {
        lemma_insert_in_order_len(s.drop_last(), x, descending);
    }
}

/// The boundaries around the cursor are valid when all are.
proof fn lemma_around_cursor_valid(bs: Seq<(KakouneRange, KakounePosition)>, cursor: KakounePosition, lines: Seq<Seq<char>>)
    requires
        boundaries_valid(bs, lines),
    ensures
        boundaries_valid(around_cursor(bs, cursor), lines),
    decreases bs.len(),
{
    if bs.len() > 0 {
        let d = bs.drop_last();
        assert(boundaries_valid(d, lines)) by {
            assert forall|k: int| 0 <= k < d.len() implies boundary_valid(#[trigger] d[k], lines) by {
                assert(d[k] == bs[k]);
            }
        }
        lemma_around_cursor_valid(d, cursor, lines);
        assert(boundary_valid(bs[bs.len() - 1], lines));
    }
}

/// The boundaries of the ranges that hold the cursor; see `around_cursor`.
fn boundaries_around(bs: &Vec<(KakouneRange, KakounePosition)>, cursor: KakounePosition) -> (res: Vec<(KakouneRange, KakounePosition)>)
    ensures
        res@ == around_cursor(bs@, cursor),
{
    let mut out: Vec<(KakouneRange, KakounePosition)> = Vec::new();
    let mut i: usize = 0;
    assert(bs@.take(0) =~= Seq::<(KakouneRange, KakounePosition)>::empty());
    while i < bs.len()
        invariant
            i <= bs@.len(),
            out@ == around_cursor(bs@.take(i as int), cursor),
        decreases bs.len() - i,
    {
        let b = bs[i];
        proof {
            assert(bs@.take(i + 1).drop_last() =~= bs@.take(i as int));
            assert(bs@.take(i + 1).last() == b);
        }
        if !less(cursor, b.0.start) && less(cursor, b.0.end) {
            out.push(b);
            assert(out@ =~= around_cursor(bs@.take(i + 1), cursor));
        } else {
            assert(out@ =~= around_cursor(bs@.take(i + 1), cursor));
        }
        i += 1;
    }
    assert(bs@.take(i as int) =~= bs@);
    out
}

/// A name that is no kind's stops the parse for good.
proof fn lemma_parse_kinds_err(names: Seq<Seq<char>>, n: int)
    requires
        0 <= n <= names.len(),
        parse_kinds(names.take(n)) is Err,
    ensures
        parse_kinds(names) == parse_kinds(names.take(n)),
    decreases names.len(),
{
    if n == names.len() {
        assert(names.take(n) =~= names);
    } else {
        let d = names.drop_last();
        assert(d.take(n) =~= names.take(n));
        lemma_parse_kinds_err(d, n);
    }
}

/// The symbol kinds that these names ask for; see `parse_kinds`.
pub fn parse_symbol_kinds(names: &Vec<String>) -> (res: Result<Vec<SymbolKind>, String>)
    ensures
        match res {
            Ok(ks) => parse_kinds(strings_view(names@)) == Ok::<Seq<SymbolKind>, Seq<char>>(ks@),
            Err(e) => parse_kinds(strings_view(names@)) == Err::<Seq<SymbolKind>, Seq<char>>(e@),
        },
{
    let ghost nv = strings_view(names@);
    let mut out: Vec<SymbolKind> = Vec::new();
    let mut i: usize = 0;
    assert(nv.take(0) =~= Seq::<Seq<char>>::empty());
    while i < names.len()
        invariant
            i <= names@.len(),
            nv == strings_view(names@),
            parse_kinds(nv.take(i as int)) == Ok::<Seq<SymbolKind>, Seq<char>>(out@),
        decreases names.len() - i,
    {
        proof {
            assert(nv.take(i + 1).drop_last() =~= nv.take(i as int));
            assert(nv.take(i + 1).last() == names@[i as int]@);
        }
        match symbol_kind_from_string(names[i].as_str()) {
            Some(k) => {
                out.push(k);
            },
            None => {
                proof {
                    lemma_parse_kinds_err(nv, i + 1);
                }
                return Err(names[i].clone());
            },
        }
        i += 1;
    }
    assert(nv.take(i as int) =~= nv);
    Ok(out)
}

/// The earlier of two positions; see `position_min`.
fn earlier(a: KakounePosition, b: KakounePosition) -> (res: KakounePosition)
    ensures
        res == position_min(a, b),
{
    if less(b, a) { b } else { a }
}

/// The later of two positions; see `position_max`.
fn later(a: KakounePosition, b: KakounePosition) -> (res: KakounePosition)
    ensures
        res == position_max(a, b),
{
    if less(b, a) { a } else { b }
}

/// Whether the mode selects the symbol around the cursor.
fn surround_mode(mode: &str) -> (res: bool)
    ensures
        res == is_surround(mode@),
{
    str_eq(mode, "<a-i>") || str_eq(mode, "<a-a>")
}

/// Whether the mode goes backward.
fn backward_mode(mode: &str) -> (res: bool)
    ensures
        res == is_backward(mode@),
{
    str_eq(mode, "[") || str_eq(mode, "{")
}

/// Whether the mode is a known one.
fn known_mode(mode: &str) -> (res: bool)
    ensures
        res == mode_known(mode@),
{
    surround_mode(mode) || str_eq(mode, "[") || str_eq(mode, "]") || str_eq(mode, "{") || str_eq(mode, "}")
}

/// The new selection; see `mode_selection`.
fn select_by_mode(mode: &str, sel: KakouneRange, cursor: KakounePosition, sym: KakouneRange) -> (res: KakouneRange)
    ensures
        res == mode_selection(mode@, sel, cursor, sym),
{
    if surround_mode(mode) {
        sym
    } else if str_eq(mode, "[") {
        KakouneRange { start: earlier(cursor, sym.end), end: sym.start }
    } else if str_eq(mode, "]") {
        KakouneRange { start: later(cursor, sym.start), end: sym.end }
    } else if str_eq(mode, "{") {
        KakouneRange { start: later(sel.start, sel.end), end: sym.start }
    } else {
        KakouneRange { start: earlier(sel.start, sel.end), end: sym.end }
    }
}

/// The new selection for one selection, if it has boundaries to walk over.
fn select_one(
    rs: &Vec<(KakouneRange, KakounePosition)>,
    sel: KakouneRange,
    cursor: KakounePosition,
    mode: &str,
    count: u32,
    text: &Rope,
    offset_encoding: OffsetEncoding,
) -> (res: Option<KakouneRange>)
    requires
        boundaries_valid(rs@, rope_lines(*text)),
    ensures
        rs@.len() == 0 ==> res is None,
        rs@.len() > 0 ==> res == Some(mode_selection(mode@, sel, cursor,
            object_walk(rs@, rope_lines(*text), offset_encoding, !is_backward(mode@), is_surround(mode@), walk_count(count), cursor, 0, false))),
{
    if rs.len() == 0 {
        return None;
    }
    let c = if count >= 1 { count } else { 1 };
    let sym = walk_boundaries(rs, cursor, c, !backward_mode(mode), surround_mode(mode), text, offset_encoding);
    Some(select_by_mode(mode, sel, cursor, sym))
}

/// The new selections; see `object_selections`.
fn new_selections(
    sorted: &Vec<(KakouneRange, KakounePosition)>,
    selections: &Vec<(KakouneRange, KakounePosition)>,
    mode: &str,
    count: u32,
    text: &Rope,
    offset_encoding: OffsetEncoding,
) -> (res: Vec<KakouneRange>)
    requires
        boundaries_valid(sorted@, rope_lines(*text)),
    ensures
        res@ == object_selections(sorted@, selections@, mode@, count, rope_lines(*text), offset_encoding),
{
    let ghost lines = rope_lines(*text);
    let surround = surround_mode(mode);
    let mut out: Vec<KakouneRange> = Vec::new();
    let mut i: usize = 0;
    assert(selections@.take(0) =~= Seq::<(KakouneRange, KakounePosition)>::empty());
    while i < selections.len()
        invariant
            i <= selections@.len(),
            lines == rope_lines(*text),
            surround == is_surround(mode@),
            boundaries_valid(sorted@, lines),
            out@ == object_selections(sorted@, selections@.take(i as int), mode@, count, lines, offset_encoding),
        decreases selections.len() - i,
    {
        let (sel, cursor) = selections[i];
        proof {
            assert(selections@.take(i + 1).drop_last() =~= selections@.take(i as int));
            assert(selections@.take(i + 1).last() == selections@[i as int]);
        }
        let picked = if surround {
            let around = boundaries_around(sorted, cursor);
            proof {
                lemma_around_cursor_valid(sorted@, cursor, lines);
            }
            select_one(&around, sel, cursor, mode, count, text, offset_encoding)
        } else {
            select_one(sorted, sel, cursor, mode, count, text, offset_encoding)
        };
        if let Some(r) = picked {
            out.push(r);
        }
        i += 1;
    }
    assert(selections@.take(i as int) =~= selections@);
    out
}

/// Appends ranges as `start,end`, joined by spaces; see `ranges_text`.
fn push_ranges(out: &mut String, rs: &Vec<KakouneRange>)
    ensures
        final(out)@ == old(out)@ + ranges_text(rs@),
{
    let ghost start = out@;
    let mut i: usize = 0;
    assert(rs@.take(0) =~= Seq::<KakouneRange>::empty());
    while i < rs.len()
        invariant
            i <= rs@.len(),
            out@ == start + ranges_text(rs@.take(i as int)),
        decreases rs.len() - i,
    {
        let ghost before = out@;
        if i > 0 {
            push_char(out, ' ');
        }
        let r = rs[i];
        r.start.push_to(out);
        push_char(out, ',');
        r.end.push_to(out);
        proof {
            reveal_strlit(",");
            reveal_strlit(" ");
            assert(rs@.take(i + 1).drop_last() =~= rs@.take(i as int));
            assert(rs@.take(i + 1).last() == r);
            if i == 0 {
                assert(rs@.take(1)[0] == r);
            }
            assert(out@ =~= start + ranges_text(rs@.take(i + 1)));
        }
        i += 1;
    }
    assert(rs@.take(i as int) =~= rs@);
}

/// Whether every boundary of the symbols of the requested kinds can be
/// walked over.
pub open spec fn object_symbols_valid(symbols: Seq<SymbolNode>, kind_names: Seq<Seq<char>>, lines: Seq<Seq<char>>, enc: OffsetEncoding) -> bool {
    &&& symbols_defined(symbols, 0, lines, enc)
    &&& match parse_kinds(kind_names) {
        Ok(kinds) => boundaries_valid(flat_ranges(symbols, 0, kinds, lines, enc), lines),
        Err(_) => true,
    }
}

/// Moves or extends each selection to a symbol boundary, or selects the
/// symbol around it, depending on `mode` (see `mode_selection`), counting
/// `count` boundaries of the symbols of the requested kinds (all kinds when
/// none is requested); gives the command that selects the result. See
/// `object_result`.
pub fn editor_object(
    symbols: &Vec<SymbolNode>,
    symbol_kinds: &Vec<String>,
    mode: &str,
    count: u32,
    selections: &Vec<(KakouneRange, KakounePosition)>,
    text: &Rope,
    offset_encoding: OffsetEncoding,
) -> (res: Result<String, ObjectError>)
    requires
        object_symbols_valid(symbols@, strings_view(symbol_kinds@), rope_lines(*text), offset_encoding),
    ensures
        match res {
            Ok(c) => object_result(symbols@, strings_view(symbol_kinds@), mode@, count, selections@, rope_lines(*text), offset_encoding)
                matches Ok(sels) && c@ == "select "@ + ranges_text(sels),
            Err(e) => object_result(symbols@, strings_view(symbol_kinds@), mode@, count, selections@, rope_lines(*text), offset_encoding)
                == Err::<Seq<KakouneRange>, ObjectFailure>(e@),
        },
{
    let ghost lines = rope_lines(*text);
    let kinds = match parse_symbol_kinds(symbol_kinds) {
        Ok(kinds) => kinds,
        Err(name) => return Err(ObjectError::InvalidSymbolKind(name)),
    };
    let ranges = flat_symbol_ranges(symbols, &kinds, text, offset_encoding);
    if ranges.len() == 0 {
        return Err(ObjectError::NoMatchingSymbol);
    }
    if !known_mode(mode) && selections.len() > 0 {
        return Err(ObjectError::InvalidMode);
    }
    let descending = backward_mode(mode) || surround_mode(mode);
    let sorted = sort_boundaries(&ranges, descending);
    proof {
        lemma_order_boundaries_valid(ranges@, descending, lines);
    }
    let sels = new_selections(&sorted, selections, mode, count, text, offset_encoding);
    if sels.len() == 0 {
        return Err(ObjectError::NoSelectionsRemaining);
    }
    let mut out = String::new();
    push_str(&mut out, "select ");
    push_ranges(&mut out, &sels);
    Ok(out)
}

/// The message that tells why a request selects nothing.
pub open spec fn failure_message(f: ObjectFailure) -> Seq<char> {
    match f {
        ObjectFailure::InvalidSymbolKind(k) => "invalid symbol kind '"@ + k + "'"@,
        ObjectFailure::NoMatchingSymbol => "lsp-object: no matching symbol found"@,
        ObjectFailure::InvalidMode => "lsp-object: invalid mode"@,
        ObjectFailure::NoSelectionsRemaining => "lsp-object: no selections remaining"@,
    }
}

impl ObjectError {
    /// The message that tells why the request selects nothing; see
    /// `failure_message`.
    pub fn message(&self) -> (res: String)
        ensures
            res@ == failure_message(self@),
    {
        let mut out = String::new();
        match self {
            ObjectError::InvalidSymbolKind(k) => {
                push_str(&mut out, "invalid symbol kind '");
                push_str(&mut out, k.as_str());
                push_str(&mut out, "'");
            },
            ObjectError::NoMatchingSymbol => push_str(&mut out, "lsp-object: no matching symbol found"),
            ObjectError::InvalidMode => push_str(&mut out, "lsp-object: invalid mode"),
            ObjectError::NoSelectionsRemaining => push_str(&mut out, "lsp-object: no selections remaining"),
        }
        assert(out@ =~= failure_message(self@));
        out
    }
}

/// A walk ends on the range of one of the boundaries it walks over.
pub proof fn lemma_object_walk_picks_boundary(
    ranges: Seq<(KakouneRange, KakounePosition)>,
    lines: Seq<Seq<char>>,
    enc: OffsetEncoding,
    forward: bool,
    surround: bool,
    count: nat,
    cur: KakounePosition,
    i: int,
    fresh: bool,
)
    requires
        walk_ok(ranges, lines, forward, surround, count, cur, i, fresh),
    ensures
        exists|k: int| 0 <= k < ranges.len() && ranges[k].0 == object_walk(ranges, lines, enc, forward, surround, count, cur, i, fresh),
    decreases count, (if fresh { 0int } else { 1int }), ranges.len() - i,
{
    let b = ranges[i];
    let hit = walk_hit(b, cur, forward, surround, lines, enc);
    let next_count: nat = if hit { (count - 1) as nat } else { count };
    let next_cur = if !surround && hit { if forward { b.0.end } else { b.0.start } } else { cur };
    if next_count == 0 {
        assert(ranges[i].0 == object_walk(ranges, lines, enc, forward, surround, count, cur, i, fresh));
    } else if i + 1 < ranges.len() {
        lemma_object_walk_picks_boundary(ranges, lines, enc, forward, surround, next_count, next_cur, i + 1, false);
    } else if surround {
        assert(ranges[i].0 == object_walk(ranges, lines, enc, forward, surround, count, cur, i, fresh));
    } else {
        lemma_object_walk_picks_boundary(ranges, lines, enc, forward, surround, next_count, walk_start(forward), 0, true);
    }
}

/// The boundaries around the cursor are of ranges that hold it.
proof fn lemma_around_cursor_holds(bs: Seq<(KakouneRange, KakounePosition)>, cursor: KakounePosition)
    ensures
        forall|k: int| 0 <= k < around_cursor(bs, cursor).len() ==> holds_cursor(#[trigger] around_cursor(bs, cursor)[k].0, cursor),
    decreases bs.len(),
{
    if bs.len() > 0 {
        lemma_around_cursor_holds(bs.drop_last(), cursor);
        let prev = around_cursor(bs.drop_last(), cursor);
        let cur = around_cursor(bs, cursor);
        assert forall|k: int| 0 <= k < cur.len() implies holds_cursor(#[trigger] cur[k].0, cursor) by {
            if k < prev.len() {
                assert(cur[k] == prev[k]);
            }
        }
    }
}

/// Selecting around the cursor selects a symbol that holds the cursor.
pub proof fn lemma_surround_holds_cursor(
    sorted: Seq<(KakouneRange, KakounePosition)>,
    mode: Seq<char>,
    count: u32,
    cursor: KakounePosition,
    lines: Seq<Seq<char>>,
    enc: OffsetEncoding,
)
    requires
        is_surround(mode),
        boundaries_valid(sorted, lines),
        around_cursor(sorted, cursor).len() > 0,
    ensures
        holds_cursor(object_walk(around_cursor(sorted, cursor), lines, enc, !is_backward(mode), true, walk_count(count), cursor, 0, false), cursor),
{
    let rs = around_cursor(sorted, cursor);
    lemma_around_cursor_valid(sorted, cursor, lines);
    lemma_around_cursor_holds(sorted, cursor);
    lemma_object_walk_picks_boundary(rs, lines, enc, !is_backward(mode), true, walk_count(count), cursor, 0, false);
}

// ---------------------------------------------------------------------------
// Breadcrumbs

/// Whether a symbol's lines, as Kakoune numbers them, include `line`.
pub open spec fn spans_line(s: SymbolNode, line: u32, lines: Seq<Seq<char>>, enc: OffsetEncoding) -> bool {
    let r = range_to_kakoune(s.range, lines, enc);
    r.start.line <= line <= r.end.line
}

/// The symbols that enclose `line`, outermost first: among symbols `k..` of
/// a list, the first whose lines include it, then the same among its
/// children.
pub open spec fn surrounding(items: Seq<SymbolNode>, k: int, line: u32, lines: Seq<Seq<char>>, enc: OffsetEncoding) -> Seq<SymbolNode>
    decreases items, items.len() - k,
{
    if k < 0 || k >= items.len() {
        Seq::empty()
    } else if spans_line(items[k], line, lines, enc) {
        proof {
            assert(decreases_to!(items => items[k]));
            assert(decreases_to!(items[k] => items[k].children));
            assert(decreases_to!(items[k].children => items[k].children@));
        }
        seq![items[k]] + surrounding(items[k].children@, 0, line, lines, enc)
    } else {
        surrounding(items, k + 1, line, lines, enc)
    }
}

/// The breadcrumbs of enclosing symbols: their names joined by ` > `, the
/// innermost one's after its kind's prefix when the mapping gives one, and a
/// space at the end.
pub open spec fn breadcrumbs_text(path: Seq<SymbolNode>, mapping: Option<Seq<(Seq<char>, Seq<char>)>>) -> Seq<char> {
    crumbs(path, mapping) + " "@
}

/// The names of enclosing symbols joined by ` > `; see `breadcrumbs_text`.
pub open spec fn crumbs(path: Seq<SymbolNode>, mapping: Option<Seq<(Seq<char>, Seq<char>)>>) -> Seq<char>
    decreases path.len(),
{
    if path.len() == 0 {
        Seq::empty()
    } else {
        let last = path.last();
        let prefix = match kind_prefix(last.kind, mapping) {
            Some(p) => p,
            None => Seq::empty(),
        };
        let names = names_joined(path.drop_last());
        (if path.len() > 1 { names + " > "@ } else { Seq::empty() }) + prefix + first_line(last.name@)
    }
}

/// The names of symbols joined by ` > `.
pub open spec fn names_joined(path: Seq<SymbolNode>) -> Seq<char>
    decreases path.len(),
{
    if path.len() == 0 {
        Seq::empty()
    } else if path.len() == 1 {
        first_line(path[0].name@)
    } else {
        names_joined(path.drop_last()) + " > "@ + first_line(path.last().name@)
    }
}

/// The command that shows breadcrumbs in a buffer's modeline.
pub open spec fn breadcrumbs_command_text(buffile: Seq<char>, crumbs_text: Seq<char>) -> Seq<char> {
    "evaluate-commands -draft -- "@ + editor_quote_spec(
        "buffer "@ + editor_quote_spec(buffile) + "\ntry 'set-option window lsp_modeline_breadcrumbs "@
            + editor_escape_spec(editor_quote_spec(crumbs_text)) + "'"@,
    )
}

/// The symbols that references name.
pub open spec fn referenced(s: Seq<&SymbolNode>) -> Seq<SymbolNode> {
    s.map_values(|r: &SymbolNode| *r)
}

/// Appends the symbols that enclose `line`; see `surrounding`.
fn push_surrounding<'a>(
    out: &mut Vec<&'a SymbolNode>,
    items: &'a Vec<SymbolNode>,
    line: u32,
    text: &Rope,
    offset_encoding: OffsetEncoding,
)
    requires
        symbols_defined(items@, 0, rope_lines(*text), offset_encoding),
    ensures
        referenced(final(out)@) == referenced(old(out)@) + surrounding(items@, 0, line, rope_lines(*text), offset_encoding),
    decreases items,
{
    let ghost lines = rope_lines(*text);
    let mut k: usize = 0;
    while k < items.len()
        invariant
            k <= items@.len(),
            lines == rope_lines(*text),
            symbols_defined(items@, k as int, lines, offset_encoding),
            surrounding(items@, 0, line, lines, offset_encoding) == surrounding(items@, k as int, line, lines, offset_encoding),
            referenced(out@) == referenced(old(out)@),
        decreases items.len() - k,
    {
        let s = &items[k];
        proof {
            lemma_flat_ranges_unfold(items@, k as int, Seq::empty(), lines, offset_encoding);
        }
        let r = lsp_range_to_kakoune(&s.range, text, offset_encoding);
        if r.start.line <= line && line <= r.end.line {
            let ghost before = referenced(out@);
            out.push(s);
            assert(referenced(out@) =~= before.push(items@[k as int]));
            proof {
                assert(decreases_to!(items => items@[k as int].children));
            }
            push_surrounding(out, &s.children, line, text, offset_encoding);
            assert(referenced(out@) =~= referenced(old(out)@) + surrounding(items@, 0, line, lines, offset_encoding));
            return;
        }
        k += 1;
    }
    assert(referenced(out@) =~= referenced(old(out)@) + surrounding(items@, 0, line, lines, offset_encoding));
}

/// Appends the breadcrumbs of enclosing symbols; see `breadcrumbs_text`.
fn push_breadcrumbs(out: &mut String, path: &Vec<&SymbolNode>, mapping: Option<&Vec<(String, String)>>)
    ensures
        final(out)@ == old(out)@ + breadcrumbs_text(referenced(path@), mapping_view(mapping)),
{
    let ghost start = out@;
    let ghost p = referenced(path@);
    let n = path.len();
    if n > 0 {
        let mut i: usize = 0;
        assert(p.take(0) =~= Seq::<SymbolNode>::empty());
        while i < n - 1
            invariant
                n == p.len(),
                n > 0,
                p == referenced(path@),
                i <= n - 1,
                out@ == start + names_joined(p.take(i as int)),
            decreases n - 1 - i,
        {
            let ghost before = out@;
            if i > 0 {
                push_str(out, " > ");
            }
            push_first_line(out, path[i].name.as_str());
            proof {
                assert(p.take(i + 1).drop_last() =~= p.take(i as int));
                assert(p.take(i + 1).last() == p[i as int]);
                if i == 0 {
                    assert(p.take(1)[0] == p[0]);
                }
                assert(out@ =~= start + names_joined(p.take(i + 1)));
            }
            i += 1;
        }
        assert(p.take(n - 1) =~= p.drop_last());
        let last = path[n - 1];
        let ghost before_last = out@;
        if n > 1 {
            push_str(out, " > ");
        }
        match symbol_kind_prefix(last.kind, mapping) {
            Some(prefix) => push_str(out, prefix.as_str()),
            None => {},
        }
        push_first_line(out, last.name.as_str());
        assert(out@ =~= start + crumbs(p, mapping_view(mapping)));
    } else {
        assert(out@ =~= start + crumbs(p, mapping_view(mapping)));
    }
    push_str(out, " ");
    assert(out@ =~= start + breadcrumbs_text(p, mapping_view(mapping)));
}

/// The command that shows, in a buffer's modeline, the breadcrumbs of the
/// symbols that enclose a line (see `surrounding` and `breadcrumbs_text`);
/// none without symbols.
pub fn breadcrumbs_command(
    symbols: &Vec<SymbolNode>,
    buffile: &str,
    position_line: u32,
    symbol_kind_mapping: Option<&Vec<(String, String)>>,
    text: &Rope,
    offset_encoding: OffsetEncoding,
) -> (res: Option<String>)
    requires
        symbols_defined(symbols@, 0, rope_lines(*text), offset_encoding),
    ensures
        symbols@.len() == 0 ==> res is None,
        symbols@.len() > 0 ==> (res matches Some(c) && c@ == breadcrumbs_command_text(buffile@, breadcrumbs_text(
            surrounding(symbols@, 0, position_line, rope_lines(*text), offset_encoding), mapping_view(symbol_kind_mapping)))),
{
    if symbols.len() == 0 {
        return None;
    }
    let mut path: Vec<&SymbolNode> = Vec::new();
    assert(referenced(path@) =~= Seq::<SymbolNode>::empty());
    push_surrounding(&mut path, symbols, position_line, text, offset_encoding);
    assert(referenced(path@) =~= surrounding(symbols@, 0, position_line, rope_lines(*text), offset_encoding));
    let mut crumbs_text = String::new();
    push_breadcrumbs(&mut crumbs_text, &path, symbol_kind_mapping);
    let mut inner = String::new();
    push_str(&mut inner, "buffer ");
    let qb = editor_quote(buffile);
    push_str(&mut inner, qb.as_str());
    push_str(&mut inner, "\ntry 'set-option window lsp_modeline_breadcrumbs ");
    let qc = editor_quote(crumbs_text.as_str());
    let ec = editor_escape(qc.as_str());
    push_str(&mut inner, ec.as_str());
    push_str(&mut inner, "'");
    let mut out = String::new();
    push_str(&mut out, "evaluate-commands -draft -- ");
    let q = editor_quote(inner.as_str());
    push_str(&mut out, q.as_str());
    assert(out@ =~= breadcrumbs_command_text(buffile@, crumbs_text@));
    Some(out)
}

// ---------------------------------------------------------------------------
// Symbol menu and search

/// Whether the name ranges of symbols `i..` of a list, and of their
/// descendants, convert to Kakoune's ranges.
pub open spec fn selections_defined(items: Seq<SymbolNode>, i: int, lines: Seq<Seq<char>>, enc: OffsetEncoding) -> bool
    decreases items, items.len() - i,
{
    if i < 0 || i >= items.len() {
        true
    } else {
        proof {
            assert(decreases_to!(items => items[i]));
            assert(decreases_to!(items[i] => items[i].children));
            assert(decreases_to!(items[i].children => items[i].children@));
        }
        range_defined(items[i].selection_range, lines, enc)
            && selections_defined(items[i].children@, 0, lines, enc)
            && selections_defined(items, i + 1, lines, enc)
    }
}

/// The commands that open a buffer and select a range there (from insert
/// mode unless `in_normal_mode`).
pub open spec fn edit_at_range_text(buffile: Seq<char>, range: KakouneRange, in_normal_mode: bool) -> Seq<char> {
    let normal = if in_normal_mode { Seq::empty() } else { "<a-semicolon>"@ };
    "edit -existing "@ + editor_quote_spec(buffile) + "\nselect "@ + kakoune_range_text(range) + "\nexecute-keys "@
        + normal + "<c-s>"@ + normal + "vv"@
}

/// The menu entries of symbols `k..` of a list and their descendants, in
/// pre-order: each symbol's qualified name (the names of its enclosing
/// symbols and its own) and the Kakoune range of its name.
pub open spec fn menu_entries(items: Seq<SymbolNode>, k: int, prefix: Seq<Seq<char>>, lines: Seq<Seq<char>>, enc: OffsetEncoding) -> Seq<(Seq<Seq<char>>, KakouneRange)>
    decreases items, items.len() - k,
{
    if k < 0 || k >= items.len() {
        Seq::empty()
    } else {
        proof {
            assert(decreases_to!(items => items[k]));
            assert(decreases_to!(items[k] => items[k].children));
            assert(decreases_to!(items[k].children => items[k].children@));
        }
        let names = prefix.push(first_line(items[k].name@));
        seq![(names, range_to_kakoune(items[k].selection_range, lines, enc))]
            + menu_entries(items[k].children@, 0, names, lines, enc)
            + menu_entries(items, k + 1, prefix, lines, enc)
    }
}

/// A menu choice: the quoted qualified name, then the quoted command that
/// goes to the symbol, twice (to run on selection and on validation).
pub open spec fn menu_choice(buffile: Seq<char>, row: (Seq<char>, KakouneRange)) -> Seq<char> {
    let goto = editor_quote_spec(edit_at_range_text(buffile, row.1, false));
    editor_quote_spec(row.0) + " "@ + goto + " "@ + goto
}

/// The menu choices of rows, joined by spaces.
pub open spec fn menu_choices(buffile: Seq<char>, entries: Seq<(Seq<char>, KakouneRange)>) -> Seq<char>
    decreases entries.len(),
{
    if entries.len() == 0 {
        Seq::empty()
    } else if entries.len() == 1 {
        menu_choice(buffile, entries[0])
    } else {
        menu_choices(buffile, entries.drop_last()) + " "@ + menu_choice(buffile, entries.last())
    }
}

/// The command that offers a menu of a buffer's symbols.
pub open spec fn symbol_menu_text(buffile: Seq<char>, symbols: Seq<SymbolNode>, lines: Seq<Seq<char>>, enc: OffsetEncoding) -> Seq<char> {
    "lsp-menu -select-cmds "@ + menu_choices(buffile, entry_rows(menu_entries(symbols, 0, Seq::empty(), lines, enc)))
}

/// The Kakoune range of the name of the first symbol, in pre-order, named
/// `name`.
pub open spec fn search_symbol(items: Seq<SymbolNode>, k: int, name: Seq<char>, lines: Seq<Seq<char>>, enc: OffsetEncoding) -> Option<KakouneRange>
    decreases items, items.len() - k,
{
    if k < 0 || k >= items.len() {
        None
    } else if first_line(items[k].name@) == name {
        Some(range_to_kakoune(items[k].selection_range, lines, enc))
    } else {
        proof {
            assert(decreases_to!(items => items[k]));
            assert(decreases_to!(items[k] => items[k].children));
            assert(decreases_to!(items[k].children => items[k].children@));
        }
        match search_symbol(items[k].children@, 0, name, lines, enc) {
            Some(r) => Some(r),
            None => search_symbol(items, k + 1, name, lines, enc),
        }
    }
}

/// The command that goes to the first symbol named `name`; nothing without
/// such a symbol.
pub open spec fn symbol_search_text(buffile: Seq<char>, symbols: Seq<SymbolNode>, name: Seq<char>, lines: Seq<Seq<char>>, enc: OffsetEncoding) -> Seq<char> {
    match search_symbol(symbols, 0, name, lines, enc) {
        Some(r) => "evaluate-commands '"@ + editor_escape_spec(edit_at_range_text(buffile, r, true)) + "'"@,
        None => Seq::empty(),
    }
}

/// The commands that open a buffer and select a range there; see
/// `edit_at_range_text`.
pub fn edit_at_range(buffile: &str, range: KakouneRange, in_normal_mode: bool) -> (res: String)
    ensures
        res@ == edit_at_range_text(buffile@, range, in_normal_mode),
{
    let normal = if in_normal_mode { "" } else { "<a-semicolon>" };
    let mut out = String::new();
    push_str(&mut out, "edit -existing ");
    let q = editor_quote(buffile);
    push_str(&mut out, q.as_str());
    push_str(&mut out, "\nselect ");
    range.push_to(&mut out);
    push_str(&mut out, "\nexecute-keys ");
    push_str(&mut out, normal);
    push_str(&mut out, "<c-s>");
    push_str(&mut out, normal);
    push_str(&mut out, "vv");
    proof {
        reveal_strlit("");
    }
    assert(out@ =~= edit_at_range_text(buffile@, range, in_normal_mode));
    out
}

/// Menu rows as values: the qualified name and the name's range.
pub open spec fn rows_view(v: Seq<(String, KakouneRange)>) -> Seq<(Seq<char>, KakouneRange)> {
    v.map_values(|r: (String, KakouneRange)| (r.0@, r.1))
}

/// Menu entries with their qualified names joined by ` > `.
pub open spec fn entry_rows(es: Seq<(Seq<Seq<char>>, KakouneRange)>) -> Seq<(Seq<char>, KakouneRange)> {
    es.map_values(|e: (Seq<Seq<char>>, KakouneRange)| (join_with(e.0, " > "@), e.1))
}

proof fn lemma_menu_entries_unfold(items: Seq<SymbolNode>, k: int, prefix: Seq<Seq<char>>, lines: Seq<Seq<char>>, enc: OffsetEncoding)
    requires
        0 <= k < items.len(),
    ensures
        menu_entries(items, k, prefix, lines, enc) == seq![(prefix.push(first_line(items[k].name@)), range_to_kakoune(items[k].selection_range, lines, enc))]
            + menu_entries(items[k].children@, 0, prefix.push(first_line(items[k].name@)), lines, enc)
            + menu_entries(items, k + 1, prefix, lines, enc),
        selections_defined(items, k, lines, enc) == (range_defined(items[k].selection_range, lines, enc)
            && selections_defined(items[k].children@, 0, lines, enc) && selections_defined(items, k + 1, lines, enc)),
{
}

/// The text of `s` up to its first line feed, as a string.
fn first_line_string(s: &str) -> (res: String)
    ensures
        res@ == first_line(s@),
{
    let mut out = String::new();
    push_first_line(&mut out, s);
    assert(out@ =~= first_line(s@));
    out
}

/// Appends the menu rows of a list of symbols; see `menu_entries`.
fn push_menu_rows(
    out: &mut Vec<(String, KakouneRange)>,
    items: &Vec<SymbolNode>,
    prefix: &mut Vec<String>,
    text: &Rope,
    offset_encoding: OffsetEncoding,
)
    requires
        selections_defined(items@, 0, rope_lines(*text), offset_encoding),
    ensures
        rows_view(final(out)@) == rows_view(old(out)@) + entry_rows(menu_entries(items@, 0, strings_view(old(prefix)@), rope_lines(*text), offset_encoding)),
        strings_view(final(prefix)@) == strings_view(old(prefix)@),
    decreases items,
{
    let ghost lines = rope_lines(*text);
    let ghost start = rows_view(out@);
    let ghost pre = strings_view(prefix@);
    let mut k: usize = 0;
    while k < items.len()
        invariant
            k <= items@.len(),
            lines == rope_lines(*text),
            strings_view(prefix@) == pre,
            selections_defined(items@, k as int, lines, offset_encoding),
            start + entry_rows(menu_entries(items@, 0, pre, lines, offset_encoding))
                == rows_view(out@) + entry_rows(menu_entries(items@, k as int, pre, lines, offset_encoding)),
        decreases items.len() - k,
    {
        let s = &items[k];
        proof {
            lemma_menu_entries_unfold(items@, k as int, pre, lines, offset_encoding);
        }
        let name = first_line_string(s.name.as_str());
        let ghost names = pre.push(name@);
        let ghost before = rows_view(out@);
        prefix.push(name);
        assert(strings_view(prefix@) =~= names);
        let qualified = join_strs(prefix, " > ");
        let r = lsp_range_to_kakoune(&s.selection_range, text, offset_encoding);
        out.push((qualified, r));
        assert(rows_view(out@) =~= before.push((join_with(names, " > "@), r)));
        proof {
            assert(decreases_to!(items => items@[k as int].children));
        }
        let ghost mid = rows_view(out@);
        push_menu_rows(out, &s.children, prefix, text, offset_encoding);
        let ghost pv = prefix@;
        assert(strings_view(pv) == names);
        prefix.pop();
        proof {
            assert(prefix@ =~= pv.drop_last());
            assert(strings_view(prefix@) =~= strings_view(pv).drop_last());
            assert(names.drop_last() =~= pre);
            assert(strings_view(prefix@) =~= pre);
            let here = seq![(names, r)];
            let kids = menu_entries(items@[k as int].children@, 0, names, lines, offset_encoding);
            let rest = menu_entries(items@, k + 1, pre, lines, offset_encoding);
            assert(entry_rows(here + kids + rest) =~= entry_rows(here) + entry_rows(kids) + entry_rows(rest));
            assert(entry_rows(here) =~= seq![(join_with(names, " > "@), r)]);
            assert(rows_view(out@) =~= before + entry_rows(here) + entry_rows(kids));
        }
        k += 1;
    }
    proof {
        assert(menu_entries(items@, k as int, pre, lines, offset_encoding) =~= Seq::<(Seq<Seq<char>>, KakouneRange)>::empty());
        assert(rows_view(out@) =~= start + entry_rows(menu_entries(items@, 0, pre, lines, offset_encoding)));
    }
}

/// Appends a menu choice; see `menu_choice`.
fn push_menu_choice(out: &mut String, buffile: &str, row: &(String, KakouneRange))
    ensures
        final(out)@ == old(out)@ + menu_choice(buffile@, (row.0@, row.1)),
{
    let ghost start = out@;
    let qn = editor_quote(row.0.as_str());
    let goto = edit_at_range(buffile, row.1, false);
    let qg = editor_quote(goto.as_str());
    push_str(out, qn.as_str());
    push_str(out, " ");
    push_str(out, qg.as_str());
    push_str(out, " ");
    push_str(out, qg.as_str());
    assert(out@ =~= start + menu_choice(buffile@, (row.0@, row.1)));
}

/// The command that offers a menu of a buffer's symbols, each choice going
/// to the symbol's name; none without symbols. See `symbol_menu_text`.
pub fn symbol_menu(buffile: &str, symbols: &Vec<SymbolNode>, text: &Rope, offset_encoding: OffsetEncoding) -> (res: Option<String>)
    requires
        selections_defined(symbols@, 0, rope_lines(*text), offset_encoding),
    ensures
        symbols@.len() == 0 ==> res is None,
        symbols@.len() > 0 ==> (res matches Some(c) && c@ == symbol_menu_text(buffile@, symbols@, rope_lines(*text), offset_encoding)),
{
    if symbols.len() == 0 {
        return None;
    }
    let mut rows: Vec<(String, KakouneRange)> = Vec::new();
    let mut prefix: Vec<String> = Vec::new();
    proof {
        assert(rows_view(rows@) =~= Seq::<(Seq<char>, KakouneRange)>::empty());
        assert(strings_view(prefix@) =~= Seq::<Seq<char>>::empty());
    }
    push_menu_rows(&mut rows, symbols, &mut prefix, text, offset_encoding);
    let ghost rv = rows_view(rows@);
    assert(rv =~= entry_rows(menu_entries(symbols@, 0, Seq::empty(), rope_lines(*text), offset_encoding)));
    let mut out = String::new();
    push_str(&mut out, "lsp-menu -select-cmds ");
    let ghost head = out@;
    let mut i: usize = 0;
    assert(rv.take(0) =~= Seq::<(Seq<char>, KakouneRange)>::empty());
    while i < rows.len()
        invariant
            i <= rows@.len(),
            rv == rows_view(rows@),
            out@ == head + menu_choices(buffile@, rv.take(i as int)),
        decreases rows.len() - i,
    {
        if i > 0 {
            push_str(&mut out, " ");
        }
        push_menu_choice(&mut out, buffile, &rows[i]);
        proof {
            assert(rv.take(i + 1).drop_last() =~= rv.take(i as int));
            assert(rv.take(i + 1).last() == rv[i as int]);
            if i == 0 {
                assert(rv.take(1)[0] == rv[0]);
            }
            assert(out@ =~= head + menu_choices(buffile@, rv.take(i + 1)));
        }
        i += 1;
    }
    assert(rv.take(i as int) =~= rv);
    Some(out)
}

/// The range of the name of the first symbol named `name`; see
/// `search_symbol`.
fn find_symbol(items: &Vec<SymbolNode>, name: &str, text: &Rope, offset_encoding: OffsetEncoding) -> (res: Option<KakouneRange>)
    requires
        selections_defined(items@, 0, rope_lines(*text), offset_encoding),
    ensures
        res == search_symbol(items@, 0, name@, rope_lines(*text), offset_encoding),
    decreases items,
{
    let ghost lines = rope_lines(*text);
    let mut k: usize = 0;
    while k < items.len()
        invariant
            k <= items@.len(),
            lines == rope_lines(*text),
            selections_defined(items@, k as int, lines, offset_encoding),
            search_symbol(items@, 0, name@, lines, offset_encoding) == search_symbol(items@, k as int, name@, lines, offset_encoding),
        decreases items.len() - k,
    {
        let s = &items[k];
        proof {
            lemma_menu_entries_unfold(items@, k as int, Seq::empty(), lines, offset_encoding);
        }
        let first = first_line_string(s.name.as_str());
        if str_eq(first.as_str(), name) {
            return Some(lsp_range_to_kakoune(&s.selection_range, text, offset_encoding));
        }
        proof {
            assert(decreases_to!(items => items@[k as int].children));
        }
        match find_symbol(&s.children, name, text, offset_encoding) {
            Some(r) => {
                return Some(r);
            },
            None => {},
        }
        k += 1;
    }
    None
}

/// The command that goes to the first symbol, in pre-order, named `name`;
/// empty without such a symbol. See `symbol_search_text`.
pub fn symbol_search(buffile: &str, symbols: &Vec<SymbolNode>, name: &str, text: &Rope, offset_encoding: OffsetEncoding) -> (res: String)
    requires
        selections_defined(symbols@, 0, rope_lines(*text), offset_encoding),
    ensures
        res@ == symbol_search_text(buffile@, symbols@, name@, rope_lines(*text), offset_encoding),
{
    let mut out = String::new();
    match find_symbol(symbols, name, text, offset_encoding) {
        Some(r) => {
            push_str(&mut out, "evaluate-commands '");
            let goto = edit_at_range(buffile, r, true);
            let e = editor_escape(goto.as_str());
            push_str(&mut out, e.as_str());
            push_str(&mut out, "'");
        },
        None => {
            assert(out@ =~= Seq::<char>::empty());
        },
    }
    out
}

// ---------------------------------------------------------------------------
// Next and previous symbol

/// LSP's order on positions: line first, then character.
pub open spec fn lsp_position_less(a: Position, b: Position) -> bool {
    a.line < b.line || (a.line == b.line && a.character < b.character)
}

/// `s` with `x` inserted after every symbol whose name does not start after
/// `x`'s.
pub open spec fn insert_by_start(s: Seq<SymbolNode>, x: SymbolNode) -> Seq<SymbolNode>
    decreases s.len(),
{
    if s.len() == 0 {
        seq![x]
    } else if lsp_position_less(x.selection_range.start, s.last().selection_range.start) {
        insert_by_start(s.drop_last(), x).push(s.last())
    } else {
        s.push(x)
    }
}

/// Symbols ordered by where their names start, equal starts keeping their
/// order.
pub open spec fn sort_by_start(s: Seq<SymbolNode>) -> Seq<SymbolNode>
    decreases s.len(),
{
    if s.len() == 0 {
        Seq::empty()
    } else {
        insert_by_start(sort_by_start(s.drop_last()), s.last())
    }
}

proof fn lemma_insert_by_start(s: Seq<SymbolNode>, x: SymbolNode)
    ensures
        insert_by_start(s, x).len() == s.len() + 1,
        forall|y: SymbolNode| #[trigger] insert_by_start(s, x).contains(y) ==> y == x || s.contains(y),
    decreases s.len(),
{
    if s.len() > 0 && lsp_position_less(x.selection_range.start, s.last().selection_range.start) {
        let d = s.drop_last();
        lemma_insert_by_start(d, x);
        let r = insert_by_start(d, x);
        assert forall|y: SymbolNode| #[trigger] insert_by_start(s, x).contains(y) implies y == x || s.contains(y) by {
            let k = choose|k: int| 0 <= k < r.push(s.last()).len() && r.push(s.last())[k] == y;
            if k < r.len() {
                assert(r.contains(y));
                if y != x {
                    let j = choose|j: int| 0 <= j < d.len() && d[j] == y;
                    assert(s[j] == y);
                }
            } else {
                assert(s[s.len() - 1] == y);
            }
        }
    } else if s.len() > 0 {
        assert forall|y: SymbolNode| #[trigger] insert_by_start(s, x).contains(y) implies y == x || s.contains(y) by {
            let k = choose|k: int| 0 <= k < s.push(x).len() && s.push(x)[k] == y;
            if k < s.len() {
                assert(s[k] == y);
            }
        }
    }
}

/// Sorting keeps the symbols: as many, each one of the list.
proof fn lemma_sort_by_start(s: Seq<SymbolNode>)
    ensures
        sort_by_start(s).len() == s.len(),
        forall|y: SymbolNode| #[trigger] sort_by_start(s).contains(y) ==> s.contains(y),
    decreases s.len(),
{
    if s.len() > 0 {
        let d = s.drop_last();
        lemma_sort_by_start(d);
        lemma_insert_by_start(sort_by_start(d), s.last());
        assert forall|y: SymbolNode| #[trigger] sort_by_start(s).contains(y) implies s.contains(y) by {
            if y == s.last() {
                assert(s[s.len() - 1] == y);
            } else {
                assert(sort_by_start(d).contains(y));
                let j = choose|j: int| 0 <= j < d.len() && d[j] == y;
                assert(s[j] == y);
            }
        }
    }
}

/// The order in which a search visits symbols: by where their names start,
/// backward when searching for the previous one.
pub open spec fn visit_order(items: Seq<SymbolNode>, next: bool) -> Seq<SymbolNode> {
    if next { sort_by_start(items) } else { sort_by_start(items).reverse() }
}

/// A visit order holds the symbols of the list, as many as there are.
pub proof fn lemma_visit_order(items: Seq<SymbolNode>, next: bool)
    ensures
        visit_order(items, next).len() == items.len(),
        forall|k: int| 0 <= k < items.len() ==> items.contains(#[trigger] visit_order(items, next)[k]),
{
    lemma_sort_by_start(items);
    let o = sort_by_start(items);
    assert forall|k: int| 0 <= k < items.len() implies items.contains(#[trigger] visit_order(items, next)[k]) by {
        if next {
            assert(o.contains(o[k]));
        } else {
            assert(o.reverse()[k] == o[o.len() - 1 - k]);
            assert(o.contains(o[o.len() - 1 - k]));
        }
    }
}

/// The Kakoune position where a symbol's name starts.
pub open spec fn name_position(s: SymbolNode, lines: Seq<Seq<char>>, enc: OffsetEncoding) -> KakounePosition {
    position_to_kakoune(s.selection_range.start, lines, enc)
}

/// Symbols `k..` of a visit order, searched for the next (or previous)
/// wanted symbol: going forward, a wanted symbol whose name starts after
/// the cursor, before its children; going backward, its children first,
/// then the symbol if wanted and its name starts before the cursor.
pub open spec fn walk_symbols(
    items: Seq<SymbolNode>,
    order: Seq<SymbolNode>,
    k: int,
    next: bool,
    cursor: KakounePosition,
    kinds: Seq<SymbolKind>,
    lines: Seq<Seq<char>>,
    enc: OffsetEncoding,
) -> Option<SymbolNode>
    decreases items, order.len() - k
    when order.len() == items.len() && forall|i: int| 0 <= i < order.len() ==> items.contains(#[trigger] order[i])
{
    if k < 0 || k >= order.len() {
        None
    } else {
        let s = order[k];
        let pos = name_position(s, lines, enc);
        let want = kind_wanted(kinds, s.kind);
        if next && want && position_less(cursor, pos) {
            Some(s)
        } else {
            proof {
                assert(items.contains(order[k]));
                let j = choose|j: int| 0 <= j < items.len() && items[j] == s;
                assert(decreases_to!(items => items[j]));
                assert(decreases_to!(items[j] => items[j].children));
                assert(decreases_to!(items[j].children => items[j].children@));
            }
            match symbol_near(s.children@, next, cursor, kinds, lines, enc) {
                Some(r) => Some(r),
                None => if !next && want && position_less(pos, cursor) {
                    Some(s)
                } else {
                    walk_symbols(items, order, k + 1, next, cursor, kinds, lines, enc)
                },
            }
        }
    }
}

/// The next (or previous) wanted symbol after (or before) the cursor,
/// searching each level in order of where names start.
pub open spec fn symbol_near(
    items: Seq<SymbolNode>,
    next: bool,
    cursor: KakounePosition,
    kinds: Seq<SymbolKind>,
    lines: Seq<Seq<char>>,
    enc: OffsetEncoding,
) -> Option<SymbolNode>
    decreases items, items.len() + 1
{
    proof {
        lemma_visit_order(items, next);
    }
    walk_symbols(items, visit_order(items, next), 0, next, cursor, kinds, lines, enc)
}

/// Whether the positions where the names of symbols `i..` of a list, and
/// of their descendants, start convert to Kakoune's positions.
pub open spec fn name_positions_defined(items: Seq<SymbolNode>, i: int, lines: Seq<Seq<char>>, enc: OffsetEncoding) -> bool
    decreases items, items.len() - i,
{
    if i < 0 || i >= items.len() {
        true
    } else {
        proof {
            assert(decreases_to!(items => items[i]));
            assert(decreases_to!(items[i] => items[i].children));
            assert(decreases_to!(items[i].children => items[i].children@));
        }
        position_defined(items[i].selection_range.start, lines, enc)
            && name_positions_defined(items[i].children@, 0, lines, enc)
            && name_positions_defined(items, i + 1, lines, enc)
    }
}

/// Every symbol of the list has a convertible name position, and so do its
/// descendants.
proof fn lemma_name_positions_defined(items: Seq<SymbolNode>, i: int, lines: Seq<Seq<char>>, enc: OffsetEncoding)
    requires
        0 <= i,
        name_positions_defined(items, i, lines, enc),
    ensures
        forall|j: int| i <= j < items.len() ==> position_defined(#[trigger] items[j].selection_range.start, lines, enc)
            && name_positions_defined(items[j].children@, 0, lines, enc),
    decreases items.len() - i,
{
    if i < items.len() {
        lemma_name_positions_defined(items, i + 1, lines, enc);
        assert(position_defined(items[i].selection_range.start, lines, enc));
        assert(name_positions_defined(items[i].children@, 0, lines, enc));
    }
}

proof fn lemma_insert_by_start_at(s: Seq<SymbolNode>, x: SymbolNode, p: int)
    requires
        0 <= p <= s.len(),
        forall|k: int| p <= k < s.len() ==> lsp_position_less(x.selection_range.start, #[trigger] s[k].selection_range.start),
        p > 0 ==> !lsp_position_less(x.selection_range.start, s[p - 1].selection_range.start),
    ensures
        insert_by_start(s, x) == s.insert(p, x),
    decreases s.len(),
{
    if s.len() == p {
        assert(s.insert(p, x) =~= s.push(x));
    } else {
        let d = s.drop_last();
        assert forall|k: int| p <= k < d.len() implies lsp_position_less(x.selection_range.start, #[trigger] d[k].selection_range.start) by {
            assert(d[k] == s[k]);
        }
        lemma_insert_by_start_at(d, x, p);
        assert(d.insert(p, x).push(s.last()) =~= s.insert(p, x));
    }
}

/// Whether position `a` comes before position `b`; see `lsp_position_less`.
fn lsp_less(a: Position, b: Position) -> (res: bool)
    ensures
        res == lsp_position_less(a, b),
{
    a.line < b.line || (a.line == b.line && a.character < b.character)
}

/// The symbols of a list in the order of where their names start; see
/// `sort_by_start`.
fn ordered_by_start<'a>(items: &'a Vec<SymbolNode>) -> (res: Vec<&'a SymbolNode>)
    ensures
        referenced(res@) == sort_by_start(items@),
{
    let mut out: Vec<&'a SymbolNode> = Vec::new();
    let mut i: usize = 0;
    assert(items@.take(0) =~= Seq::<SymbolNode>::empty());
    assert(referenced(out@) =~= Seq::<SymbolNode>::empty());
    while i < items.len()
        invariant
            i <= items@.len(),
            referenced(out@) == sort_by_start(items@.take(i as int)),
        decreases items.len() - i,
    {
        let x = &items[i];
        let mut p: usize = out.len();
        while p > 0 && lsp_less(x.selection_range.start, out[p - 1].selection_range.start)
            invariant
                p <= out@.len(),
                forall|k: int| p <= k < out@.len() ==> lsp_position_less(x.selection_range.start, #[trigger] out@[k].selection_range.start),
            decreases p,
        {
            p -= 1;
        }
        let ghost before = referenced(out@);
        proof {
            assert forall|k: int| p <= k < before.len() implies lsp_position_less(x.selection_range.start, #[trigger] before[k].selection_range.start) by {
                assert(before[k] == *out@[k]);
            }
            if p > 0 {
                assert(before[p - 1] == *out@[p - 1]);
            }
            lemma_insert_by_start_at(before, *x, p as int);
            assert(items@.take(i + 1).drop_last() =~= items@.take(i as int));
            assert(items@.take(i + 1).last() == *x);
        }
        out.insert(p, x);
        assert(referenced(out@) =~= before.insert(p as int, *x));
        i += 1;
    }
    assert(items@.take(i as int) =~= items@);
    out
}

/// The symbols in the opposite order.
fn reversed<'a>(v: &Vec<&'a SymbolNode>) -> (res: Vec<&'a SymbolNode>)
    ensures
        referenced(res@) == referenced(v@).reverse(),
{
    let ghost rv = referenced(v@);
    let mut out: Vec<&'a SymbolNode> = Vec::new();
    let mut i: usize = v.len();
    while i > 0
        invariant
            i <= v@.len(),
            rv == referenced(v@),
            out@.len() == v@.len() - i,
            forall|k: int| 0 <= k < out@.len() ==> *out@[k] == rv[rv.len() - 1 - k],
        decreases i,
    {
        i -= 1;
        out.push(v[i]);
    }
    assert(referenced(out@) =~= rv.reverse());
    out
}

/// The next (or previous) wanted symbol; see `symbol_near`.
fn find_near<'a>(
    items: &'a Vec<SymbolNode>,
    next: bool,
    cursor: KakounePosition,
    kinds: &Vec<SymbolKind>,
    text: &Rope,
    offset_encoding: OffsetEncoding,
) -> (res: Option<(&'a SymbolNode, KakounePosition)>)
    requires
        name_positions_defined(items@, 0, rope_lines(*text), offset_encoding),
    ensures
        match res {
            Some(r) => symbol_near(items@, next, cursor, kinds@, rope_lines(*text), offset_encoding) == Some(*r.0)
                && r.1 == name_position(*r.0, rope_lines(*text), offset_encoding),
            None => symbol_near(items@, next, cursor, kinds@, rope_lines(*text), offset_encoding) is None,
        },
    decreases items,
{
    let ghost lines = rope_lines(*text);
    let sorted = ordered_by_start(items);
    let order = if next { sorted } else { reversed(&sorted) };
    let ghost ov = referenced(order@);
    proof {
        lemma_visit_order(items@, next);
        assert(ov == visit_order(items@, next));
        lemma_name_positions_defined(items@, 0, lines, offset_encoding);
    }
    let mut k: usize = 0;
    while k < order.len()
        invariant
            k <= order@.len(),
            lines == rope_lines(*text),
            ov == referenced(order@),
            ov == visit_order(items@, next),
            ov.len() == items@.len(),
            forall|i: int| 0 <= i < ov.len() ==> items@.contains(#[trigger] ov[i]),
            forall|j: int| 0 <= j < items@.len() ==> position_defined(#[trigger] items@[j].selection_range.start, lines, offset_encoding)
                && name_positions_defined(items@[j].children@, 0, lines, offset_encoding),
            symbol_near(items@, next, cursor, kinds@, lines, offset_encoding) == walk_symbols(items@, ov, k as int, next, cursor, kinds@, lines, offset_encoding),
        decreases order.len() - k,
    {
        let s = order[k];
        let ghost j = choose|j: int| 0 <= j < items@.len() && items@[j] == ov[k as int];
        proof {
            assert(ov[k as int] == *s);
            assert(items@.contains(ov[k as int]));
            assert(items@[j] == *s);
        }
        let pos = lsp_position_to_kakoune(&s.selection_range.start, text, offset_encoding);
        let want = kinds.len() == 0 || kinds_contain(kinds, s.kind);
        if next && want && less(cursor, pos) {
            return Some((s, pos));
        }
        proof {
            assert(decreases_to!(items => items@[j].children));
        }
        match find_near(&s.children, next, cursor, kinds, text, offset_encoding) {
            Some(r) => {
                return Some(r);
            },
            None => {},
        }
        if !next && want && less(pos, cursor) {
            return Some((s, pos));
        }
        k += 1;
    }
    None
}

/// Where the next (or previous) symbol of the requested kinds (all when none
/// is requested) after (or before) the cursor has its name, the name's first
/// line and the symbol's kind; see `symbol_near`.
pub fn next_or_prev_symbol_details(
    symbols: &Vec<SymbolNode>,
    search_next: bool,
    cursor: KakounePosition,
    symbol_kinds: &Vec<SymbolKind>,
    text: &Rope,
    offset_encoding: OffsetEncoding,
) -> (res: Option<(KakounePosition, String, SymbolKind)>)
    requires
        name_positions_defined(symbols@, 0, rope_lines(*text), offset_encoding),
    ensures
        match res {
            Some(d) => symbol_near(symbols@, search_next, cursor, symbol_kinds@, rope_lines(*text), offset_encoding) matches Some(s)
                && d.0 == name_position(s, rope_lines(*text), offset_encoding) && d.1@ == first_line(s.name@) && d.2 == s.kind,
            None => symbol_near(symbols@, search_next, cursor, symbol_kinds@, rope_lines(*text), offset_encoding) is None,
        },
{
    match find_near(symbols, search_next, cursor, symbol_kinds, text, offset_encoding) {
        None => None,
        Some((s, pos)) => Some((pos, first_line_string(s.name.as_str()), s.kind)),
    }
}

/// What a walk finds is a wanted symbol on the searched side of the cursor.
proof fn lemma_walk_symbols_side(
    items: Seq<SymbolNode>,
    order: Seq<SymbolNode>,
    k: int,
    next: bool,
    cursor: KakounePosition,
    kinds: Seq<SymbolKind>,
    lines: Seq<Seq<char>>,
    enc: OffsetEncoding,
)
    requires
        order.len() == items.len(),
        forall|i: int| 0 <= i < order.len() ==> items.contains(#[trigger] order[i]),
    ensures
        walk_symbols(items, order, k, next, cursor, kinds, lines, enc) matches Some(s) ==> kind_wanted(kinds, s.kind)
            && (if next { position_less(cursor, name_position(s, lines, enc)) } else { position_less(name_position(s, lines, enc), cursor) }),
    decreases items, order.len() - k,
{
    if 0 <= k < order.len() {
        let s = order[k];
        assert(items.contains(order[k]));
        let j = choose|j: int| 0 <= j < items.len() && items[j] == s;
        assert(decreases_to!(items => items[j]));
        assert(decreases_to!(items[j] => items[j].children));
        assert(decreases_to!(items[j].children => items[j].children@));
        lemma_symbol_near_side(s.children@, next, cursor, kinds, lines, enc);
        lemma_walk_symbols_side(items, order, k + 1, next, cursor, kinds, lines, enc);
    }
}

/// The next symbol found is a wanted one whose name starts after the cursor;
/// the previous one, a wanted one whose name starts before it.
pub proof fn lemma_symbol_near_side(
    items: Seq<SymbolNode>,
    next: bool,
    cursor: KakounePosition,
    kinds: Seq<SymbolKind>,
    lines: Seq<Seq<char>>,
    enc: OffsetEncoding,
)
    ensures
        symbol_near(items, next, cursor, kinds, lines, enc) matches Some(s) ==> kind_wanted(kinds, s.kind)
            && (if next { position_less(cursor, name_position(s, lines, enc)) } else { position_less(name_position(s, lines, enc), cursor) }),
    decreases items, items.len() + 1,
{
    lemma_visit_order(items, next);
    lemma_walk_symbols_side(items, visit_order(items, next), 0, next, cursor, kinds, lines, enc);
}

} // verus!
