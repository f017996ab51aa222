//! Document symbols: their kinds, and their outline as Kakoune shows it in
//! a grep-like buffer.

use vstd::prelude::*;
use ropey::Rope;
use crate::rope::{line_start_char, rope_char, rope_char_to_line, rope_chars, rope_len_chars, rope_line_to_char, rope_lines};
use crate::strings::{chars_of, push_char, push_str, str_eq};
use crate::types::{KakounePosition, Position};
use crate::util::{is_alphanumeric, unicode_alphanumeric};

verus! {

/// The kind of a symbol, by its LSP number.
#[derive(Clone, Copy, Debug, PartialEq, Eq, Structural)]
pub struct SymbolKind(pub i32);

/// The names of the symbol kinds that LSP defines, numbered from 1.
pub open spec fn kind_names() -> Seq<Seq<char>> {
    seq![
        "File"@, "Module"@, "Namespace"@, "Package"@, "Class"@, "Method"@, "Property"@, "Field"@,
        "Constructor"@, "Enum"@, "Interface"@, "Function"@, "Variable"@, "Constant"@, "String"@,
        "Number"@, "Boolean"@, "Array"@, "Object"@, "Key"@, "Null"@, "EnumMember"@, "Struct"@,
        "Event"@, "Operator"@, "TypeParameter"@,
    ]
}

/// The name of a symbol kind, as `lsp_types` prints it: its name for a kind
/// that LSP defines, else `SymbolKind(n)`.
pub open spec fn kind_name(k: SymbolKind) -> Seq<char> {
    if 1 <= k.0 <= 26 {
        kind_names()[k.0 - 1]
    } else {
        "SymbolKind("@ + crate::diagnostics::int_decimal(k.0 as int) + ")"@
    }
}

/// The name of kind number `n` (from 1 to 26).
fn kind_name_str(n: i32) -> (res: &'static str)
    requires
        1 <= n <= 26,
    ensures
        res@ == kind_names()[n - 1],
{
    match n {
        1 => "File",
        2 => "Module",
        3 => "Namespace",
        4 => "Package",
        5 => "Class",
        6 => "Method",
        7 => "Property",
        8 => "Field",
        9 => "Constructor",
        10 => "Enum",
        11 => "Interface",
        12 => "Function",
        13 => "Variable",
        14 => "Constant",
        15 => "String",
        16 => "Number",
        17 => "Boolean",
        18 => "Array",
        19 => "Object",
        20 => "Key",
        21 => "Null",
        22 => "EnumMember",
        23 => "Struct",
        24 => "Event",
        25 => "Operator",
        _ => "TypeParameter",
    }
}

impl SymbolKind {
    /// The kind's name; see `kind_name`.
    pub fn name(&self) -> (res: String)
        ensures
            res@ == kind_name(*self),
    {
        let mut out = String::new();
        if 1 <= self.0 && self.0 <= 26 {
            push_str(&mut out, kind_name_str(self.0));
            assert(out@ =~= kind_name(*self));
        } else {
            push_str(&mut out, "SymbolKind(");
            if self.0 < 0 {
                push_char(&mut out, '-');
                let m: i64 = -(self.0 as i64);
                crate::strings::push_decimal(&mut out, m as u64);
            } else {
                crate::strings::push_decimal(&mut out, self.0 as u64);
            }
            push_str(&mut out, ")");
            assert(out@ =~= kind_name(*self));
        }
        out
    }
}

/// The kind of the first of the names from index `n` on that is `name`.
pub open spec fn kind_named_from(name: Seq<char>, n: int) -> Option<SymbolKind>
    decreases 26 - n,
{
    if n < 0 || n >= 26 {
        None
    } else if kind_names()[n] == name {
        Some(SymbolKind((n + 1) as i32))
    } else {
        kind_named_from(name, n + 1)
    }
}

/// The symbol kind that LSP names `name`, if any.
pub open spec fn kind_named(name: Seq<char>) -> Option<SymbolKind> {
    kind_named_from(name, 0)
}

/// The symbol kind that LSP names `value`, if any.
pub fn symbol_kind_from_string(value: &str) -> (res: Option<SymbolKind>)
    ensures
        res == kind_named(value@),
        res matches Some(k) ==> 1 <= k.0 <= 26 && kind_names()[k.0 - 1] == value@,
        res is None ==> forall|i: int| 0 <= i < 26 ==> kind_names()[i] != value@,
{
    let mut n: i32 = 1;
    while n <= 26
        invariant
            1 <= n <= 27,
            forall|i: int| 0 <= i < n - 1 ==> kind_names()[i] != value@,
            kind_named(value@) == kind_named_from(value@, n - 1),
        decreases 27 - n,
    {
        if str_eq(value, kind_name_str(n)) {
            return Some(SymbolKind(n));
        }
        n += 1;
    }
    None
}


// ---------------------------------------------------------------------------
// Kind prefixes

/// The prefix that a symbol-kind mapping (from kind names to labels) gives a
/// kind: none without a mapping or without an entry for the kind's name, else
/// the label and a space (nothing for an empty label). The first entry for
/// the name counts.
pub open spec fn kind_prefix(kind: SymbolKind, mapping: Option<Seq<(Seq<char>, Seq<char>)>>) -> Option<Seq<char>> {
    match mapping {
        None => None,
        Some(m) => match crate::language_features::semantic_highlighting::face_lookup(m, kind_name(kind)) {
            None => None,
            Some(label) => Some(if label.len() == 0 { Seq::empty() } else { label + seq![' '] }),
        },
    }
}

/// The view of an optional mapping.
pub open spec fn mapping_view(mapping: Option<&Vec<(String, String)>>) -> Option<Seq<(Seq<char>, Seq<char>)>> {
    match mapping {
        Some(m) => Some(crate::language_features::semantic_highlighting::faces_view(m@)),
        None => None,
    }
}

/// The prefix for a symbol of this kind; see `kind_prefix`.
pub fn symbol_kind_prefix(kind: SymbolKind, symbol_kind_mapping: Option<&Vec<(String, String)>>) -> (res: Option<String>)
    ensures
        match res {
            Some(p) => kind_prefix(kind, mapping_view(symbol_kind_mapping)) == Some(p@),
            None => kind_prefix(kind, mapping_view(symbol_kind_mapping)) is None,
        },
{
    let mapping = match symbol_kind_mapping {
        Some(m) => m,
        None => return None,
    };
    let name = kind.name();
    match crate::language_features::semantic_highlighting::lookup(mapping, &name) {
        Some(label) => {
            if label.as_str().is_empty() {
                let e = String::new();
                assert(e@ =~= Seq::<char>::empty());
                Some(e)
            } else {
                let mut p = label;
                push_char(&mut p, ' ');
                Some(p)
            }
        },
        None => None,
    }
}

// ---------------------------------------------------------------------------
// Outline

/// A symbol, with where it is shown and its children.
pub struct SymbolEntry {
    /// The symbol's name; only its first line is shown.
    pub name: String,
    pub kind: SymbolKind,
    /// The symbol's file, as shown (relative to the project root when inside it).
    pub file: String,
    /// Where the symbol's name starts.
    pub position: KakounePosition,
    pub children: Vec<SymbolEntry>,
}

/// The text of `s` up to its first line feed.
pub open spec fn first_line(s: Seq<char>) -> Seq<char> {
    match crate::markdown::first_newline(s, 0) {
        Some(k) => s.take(k),
        None => s,
    }
}

/// The tree lines before a symbol at the depth that `prefix` describes (one
/// flag per enclosing level, telling whether the enclosing symbol was the last
/// of its siblings): nothing at the top; else, for each level but the first,
/// a vertical bar or blanks, then the branch to this symbol.
pub open spec fn hierarchy(prefix: Seq<bool>, is_last: bool) -> Seq<char> {
    if prefix.len() == 0 {
        Seq::empty()
    } else {
        hierarchy_levels(prefix.skip(1)) + (if is_last { "└── "@ } else { "├── "@ })
    }
}

/// The tree marks of enclosing levels.
pub open spec fn hierarchy_levels(levels: Seq<bool>) -> Seq<char>
    decreases levels.len(),
{
    if levels.len() == 0 {
        Seq::empty()
    } else {
        hierarchy_levels(levels.drop_last()) + (if levels.last() { "    "@ } else { "│   "@ })
    }
}

/// How a symbol is named in the outline: with its kind's prefix when the
/// mapping gives one, else followed by its kind's name in parentheses.
pub open spec fn designator(e: SymbolEntry, mapping: Option<Seq<(Seq<char>, Seq<char>)>>) -> Seq<char> {
    match kind_prefix(e.kind, mapping) {
        None => first_line(e.name@) + " ("@ + kind_name(e.kind) + ")"@,
        Some(p) => p + seq![' '] + first_line(e.name@),
    }
}

/// A line of the outline: `file:line:column:` (the file is `%` for a
/// single-file outline), the description, and the symbol's position.
pub struct OutlineRow {
    pub location: Seq<char>,
    pub description: Seq<char>,
    pub position: KakounePosition,
}

/// The outline row of a symbol.
pub open spec fn outline_row(e: SymbolEntry, prefix: Seq<bool>, is_last: bool, single_file: bool, mapping: Option<Seq<(Seq<char>, Seq<char>)>>) -> OutlineRow {
    OutlineRow {
        location: (if single_file { seq!['%'] } else { e.file@ }) + seq![':'] + crate::strings::decimal(e.position.line as nat)
            + seq![':'] + crate::strings::decimal(e.position.column as nat) + seq![':'],
        description: hierarchy(prefix, is_last) + designator(e, mapping),
        position: e.position,
    }
}

/// The outline rows of symbols `i..` of a list of siblings, each followed by
/// its children's rows, depth first.
pub open spec fn outline_rows(items: Seq<SymbolEntry>, i: int, prefix: Seq<bool>, single_file: bool, mapping: Option<Seq<(Seq<char>, Seq<char>)>>) -> Seq<OutlineRow>
    decreases items, items.len() - i,
{
    if i < 0 || i >= items.len() {
        Seq::empty()
    } else {
        let e = items[i];
        let is_last = i + 1 == items.len();
        proof {
            assert(decreases_to!(items => items[i]));
            assert(decreases_to!(items[i] => items[i].children));
            assert(decreases_to!(items[i].children => items[i].children@));
        }
        seq![outline_row(e, prefix, is_last, single_file, mapping)]
            + outline_rows(e.children@, 0, prefix.push(is_last), single_file, mapping)
            + outline_rows(items, i + 1, prefix, single_file, mapping)
    }
}


/// Kakoune's order on positions: line first, then column.
pub open spec fn kakoune_position_le(a: KakounePosition, b: KakounePosition) -> bool {
    a.line < b.line || (a.line == b.line && a.column <= b.column)
}

/// The line (one-based) of the last row of the outline at or before `cursor`.
pub open spec fn goto_row(rows: Seq<OutlineRow>, cursor: KakounePosition) -> Option<nat>
    decreases rows.len(),
{
    if rows.len() == 0 {
        None
    } else if kakoune_position_le(rows.last().position, cursor) {
        Some(rows.len())
    } else {
        goto_row(rows.drop_last(), cursor)
    }
}

/// A line of the outline as it is built.
pub struct OutlineLine {
    pub location: String,
    pub description: String,
    pub position: KakounePosition,
}

impl View for OutlineLine {
    type V = OutlineRow;

    open spec fn view(&self) -> OutlineRow {
        OutlineRow { location: self.location@, description: self.description@, position: self.position }
    }
}

/// What outline lines say.
pub open spec fn lines_view(lines: Seq<OutlineLine>) -> Seq<OutlineRow> {
    lines.map_values(|l: OutlineLine| l@)
}

/// Where the outline goes to: the last row at or before the cursor, for a
/// single-file outline.
pub open spec fn goto_spec(rows: Seq<OutlineRow>, cursor: Option<KakounePosition>) -> Option<nat> {
    match cursor {
        Some(c) => goto_row(rows, c),
        None => None,
    }
}

/// Appends the text of `s` up to its first line feed.
pub(crate) fn push_first_line(out: &mut String, s: &str)
    ensures
        final(out)@ == old(out)@ + first_line(s@),
{
    let chars = chars_of(s);
    let mut k: usize = 0;
    while k < chars.len() && chars[k] != '\n'
        invariant
            k <= chars.len(),
            chars@ == s@,
            forall|x: int| 0 <= x < k ==> s@[x] != '\n',
        decreases chars.len() - k,
    {
        k += 1;
    }
    proof {
        crate::markdown::lemma_first_newline_scan(s@, 0, k as int);
        if k == chars.len() {
            assert(s@.subrange(0, k as int) =~= s@);
        } else {
            assert(s@.subrange(0, k as int) =~= s@.take(k as int));
        }
    }
    crate::markdown::push_chars(out, &chars, 0, k);
}

/// Appends the tree marks before a symbol; see `hierarchy`.
fn push_hierarchy(out: &mut String, prefix: &Vec<bool>, is_last: bool)
    ensures
        final(out)@ == old(out)@ + hierarchy(prefix@, is_last),
{
    let ghost start = out@;
    if prefix.len() == 0 {
        assert(out@ =~= start + hierarchy(prefix@, is_last));
        return;
    }
    let ghost levels = prefix@.skip(1);
    let mut k: usize = 1;
    assert(levels.take(0) =~= Seq::<bool>::empty());
    while k < prefix.len()
        invariant
            1 <= k <= prefix.len(),
            levels == prefix@.skip(1),
            out@ == start + hierarchy_levels(levels.take(k - 1)),
        decreases prefix.len() - k,
    {
        proof {
            assert(levels.take(k as int).drop_last() =~= levels.take(k - 1));
            assert(levels.take(k as int).last() == prefix@[k as int]);
        }
        if prefix[k] {
            push_str(out, "    ");
        } else {
            push_str(out, "│   ");
        }
        k += 1;
    }
    assert(levels.take(k - 1) =~= levels);
    if is_last {
        push_str(out, "└── ");
    } else {
        push_str(out, "├── ");
    }
}

/// Appends how a symbol is named; see `designator`.
fn push_designator(out: &mut String, e: &SymbolEntry, mapping: Option<&Vec<(String, String)>>)
    ensures
        final(out)@ == old(out)@ + designator(*e, mapping_view(mapping)),
{
    let ghost start = out@;
    match symbol_kind_prefix(e.kind, mapping) {
        None => {
            push_first_line(out, e.name.as_str());
            push_str(out, " (");
            let n = e.kind.name();
            push_str(out, n.as_str());
            push_str(out, ")");
        },
        Some(p) => {
            push_str(out, p.as_str());
            push_char(out, ' ');
            push_first_line(out, e.name.as_str());
        },
    }
    assert(out@ =~= start + designator(*e, mapping_view(mapping)));
}

/// The outline row of a symbol.
fn outline_line(e: &SymbolEntry, prefix: &Vec<bool>, is_last: bool, single_file: bool, mapping: Option<&Vec<(String, String)>>) -> (res: OutlineLine)
    ensures
        res@ == outline_row(*e, prefix@, is_last, single_file, mapping_view(mapping)),
{
    let mut location = String::new();
    if single_file {
        push_char(&mut location, '%');
    } else {
        push_str(&mut location, e.file.as_str());
    }
    push_char(&mut location, ':');
    crate::strings::push_decimal(&mut location, e.position.line as u64);
    push_char(&mut location, ':');
    crate::strings::push_decimal(&mut location, e.position.column as u64);
    push_char(&mut location, ':');
    let mut description = String::new();
    push_hierarchy(&mut description, prefix, is_last);
    push_designator(&mut description, e, mapping);
    let res = OutlineLine { location, description, position: e.position };
    assert(res@.location =~= outline_row(*e, prefix@, is_last, single_file, mapping_view(mapping)).location);
    assert(res@.description =~= outline_row(*e, prefix@, is_last, single_file, mapping_view(mapping)).description);
    res
}

/// Appends the outline rows of a list of siblings (and their descendants),
/// keeping `goto` on the last row at or before the cursor.
fn format_symbol_at_depth(
    output: &mut Vec<OutlineLine>,
    items: &Vec<SymbolEntry>,
    cursor: Option<KakounePosition>,
    goto: &mut Option<usize>,
    prefix: &mut Vec<bool>,
    mapping: Option<&Vec<(String, String)>>,
)
    requires
        match *old(goto) {
            Some(g) => goto_spec(lines_view(old(output)@), cursor) == Some(g as nat),
            None => goto_spec(lines_view(old(output)@), cursor) is None,
        },
    ensures
        lines_view(final(output)@) == lines_view(old(output)@) + outline_rows(items@, 0, old(prefix)@, cursor is Some, mapping_view(mapping)),
        final(prefix)@ == old(prefix)@,
        match *final(goto) {
            Some(g) => goto_spec(lines_view(final(output)@), cursor) == Some(g as nat),
            None => goto_spec(lines_view(final(output)@), cursor) is None,
        },
    decreases items,
{
    let ghost start = lines_view(output@);
    let ghost pre = prefix@;
    let ghost mv = mapping_view(mapping);
    let single_file = cursor.is_some();
    let length = items.len();
    let mut i: usize = 0;
    while i < length
        invariant
            i <= length,
            length == items@.len(),
            prefix@ == pre,
            mv == mapping_view(mapping),
            single_file == cursor is Some,
            start + outline_rows(items@, 0, pre, single_file, mv) == lines_view(output@) + outline_rows(items@, i as int, pre, single_file, mv),
            match *goto {
                Some(g) => goto_spec(lines_view(output@), cursor) == Some(g as nat),
                None => goto_spec(lines_view(output@), cursor) is None,
            },
        decreases length - i,
    {
        let symbol = &items[i];
        let is_last = i + 1 == length;
        let line = outline_line(symbol, prefix, is_last, single_file, mapping);
        let position = line.position;
        let ghost before = output@;
        output.push(line);
        proof {
            assert(lines_view(output@) =~= lines_view(before).push(outline_row(*symbol, pre, is_last, single_file, mv)));
            assert(lines_view(output@).drop_last() =~= lines_view(before));
        }
        if let Some(c) = cursor {
            if position.line < c.line || (position.line == c.line && position.column <= c.column) {
                *goto = Some(output.len());
            }
        }
        prefix.push(is_last);
        proof {
            assert(decreases_to!(items => items@[i as int].children));
        }
        let ghost mid = lines_view(output@);
        format_symbol_at_depth(output, &symbol.children, cursor, goto, prefix, mapping);
        prefix.pop();
        proof {
            assert(prefix@ =~= pre);
            assert(outline_rows(items@, i as int, pre, single_file, mv) == seq![outline_row(*symbol, pre, is_last, single_file, mv)]
                + outline_rows(symbol.children@, 0, pre.push(is_last), single_file, mv)
                + outline_rows(items@, i + 1, pre, single_file, mv));
            assert(lines_view(output@) == mid + outline_rows(symbol.children@, 0, pre.push(is_last), single_file, mv));
        }
        i += 1;
    }
    proof {
        assert(outline_rows(items@, i as int, pre, single_file, mv) =~= Seq::<OutlineRow>::empty());
    }
}

/// The widest location of the outline, in chars.
pub open spec fn location_width(rows: Seq<OutlineRow>) -> nat
    decreases rows.len(),
{
    if rows.len() == 0 {
        0
    } else {
        let w = location_width(rows.drop_last());
        let l = rows.last().location.len();
        if l > w { l } else { w }
    }
}

/// `s` padded with spaces on the right to `width` chars.
pub open spec fn padded(s: Seq<char>, width: nat) -> Seq<char> {
    if s.len() >= width {
        s
    } else {
        s + Seq::new((width - s.len()) as nat, |i: int| ' ')
    }
}

/// The outline's text: a line per row, its location padded to `width`, a
/// space and its description.
pub open spec fn outline_text(rows: Seq<OutlineRow>, width: nat) -> Seq<char>
    decreases rows.len(),
{
    if rows.len() == 0 {
        Seq::empty()
    } else {
        outline_text(rows.drop_last(), width) + padded(rows.last().location, width) + seq![' ']
            + rows.last().description + seq!['\n']
    }
}

/// The outline of a list of symbols, as a grep-like buffer.
pub open spec fn symbol_outline(items: Seq<SymbolEntry>, cursor: Option<KakounePosition>, mapping: Option<Seq<(Seq<char>, Seq<char>)>>) -> Seq<char> {
    let rows = outline_rows(items, 0, Seq::empty(), cursor is Some, mapping);
    outline_text(rows, if cursor is Some { location_width(rows) } else { 0 })
}

/// The line of the outline that a single-file outline goes to (0 for none).
pub open spec fn symbol_outline_goto(items: Seq<SymbolEntry>, cursor: Option<KakounePosition>, mapping: Option<Seq<(Seq<char>, Seq<char>)>>) -> nat {
    match goto_spec(outline_rows(items, 0, Seq::empty(), cursor is Some, mapping), cursor) {
        Some(g) => g,
        None => 0,
    }
}

/// Appends `n` spaces.
fn push_spaces(out: &mut String, n: usize)
    ensures
        final(out)@ == old(out)@ + Seq::new(n as nat, |i: int| ' '),
{
    let ghost start = out@;
    let mut k: usize = 0;
    while k < n
        invariant
            k <= n,
            out@ == start + Seq::new(k as nat, |i: int| ' '),
        decreases n - k,
    {
        push_char(out, ' ');
        k += 1;
        assert(out@ =~= start + Seq::new(k as nat, |i: int| ' '));
    }
}

/// Represents a list of symbols as the content of a grep-like buffer: a line
/// per symbol, depth first, with tree marks before the children's names.
/// With a main cursor the outline is of one file (`%` for the file name, the
/// locations aligned), and the second result is the line of the last symbol
/// at or before the cursor (0 for none).
pub fn format_symbol(
    items: &Vec<SymbolEntry>,
    single_file_main_cursor: Option<KakounePosition>,
    symbol_kind_mapping: Option<&Vec<(String, String)>>,
) -> (res: (String, usize))
    ensures
        res.0@ == symbol_outline(items@, single_file_main_cursor, mapping_view(symbol_kind_mapping)),
        res.1 as nat == symbol_outline_goto(items@, single_file_main_cursor, mapping_view(symbol_kind_mapping)),
{
    let ghost mv = mapping_view(symbol_kind_mapping);
    let mut columns: Vec<OutlineLine> = Vec::new();
    let mut goto: Option<usize> = None;
    let mut prefix: Vec<bool> = Vec::new();
    proof {
        assert(lines_view(columns@) =~= Seq::<OutlineRow>::empty());
        assert(prefix@ =~= Seq::<bool>::empty());
    }
    format_symbol_at_depth(&mut columns, items, single_file_main_cursor, &mut goto, &mut prefix, symbol_kind_mapping);
    let ghost rows = lines_view(columns@);
    assert(rows =~= outline_rows(items@, 0, Seq::empty(), single_file_main_cursor is Some, mv));
    let mut width: usize = 0;
    let mut widths: Vec<usize> = Vec::new();
    let mut i: usize = 0;
    while i < columns.len()
        invariant
            i <= columns.len(),
            rows == lines_view(columns@),
            widths@.len() == i,
            forall|k: int| 0 <= k < i ==> widths@[k] as nat == rows[k].location.len(),
            width as nat == location_width(rows.take(i as int)),
        decreases columns.len() - i,
    {
        let n = chars_of(columns[i].location.as_str()).len();
        widths.push(n);
        proof {
            assert(rows.take(i + 1).drop_last() =~= rows.take(i as int));
        }
        if n > width {
            width = n;
        }
        i += 1;
    }
    assert(rows.take(i as int) =~= rows);
    if single_file_main_cursor.is_none() {
        width = 0;
    }
    let ghost w = width as nat;
    let mut text = String::new();
    let mut j: usize = 0;
    while j < columns.len()
        invariant
            j <= columns.len(),
            rows == lines_view(columns@),
            widths@.len() == columns.len(),
            forall|k: int| 0 <= k < columns.len() ==> widths@[k] as nat == rows[k].location.len(),
            w == width as nat,
            text@ == outline_text(rows.take(j as int), w),
        decreases columns.len() - j,
    {
        let line = &columns[j];
        push_str(&mut text, line.location.as_str());
        if widths[j] < width {
            push_spaces(&mut text, width - widths[j]);
        }
        push_char(&mut text, ' ');
        push_str(&mut text, line.description.as_str());
        push_char(&mut text, '\n');
        proof {
            assert(rows.take(j + 1).drop_last() =~= rows.take(j as int));
            assert(rows.take(j + 1).last() == rows[j as int]);
            assert(text@ =~= outline_text(rows.take(j + 1), w));
        }
        j += 1;
    }
    assert(rows.take(j as int) =~= rows);
    let g = match goto {
        Some(g) => g,
        None => 0,
    };
    (text, g)
}

/// `s` up to its first `c`, or all of it.
pub open spec fn up_to_first(s: Seq<char>, c: char) -> Seq<char> {
    if exists|i: int| 0 <= i < s.len() && s[i] == c {
        s.take(choose|i: int| 0 <= i < s.len() && s[i] == c && forall|j: int| 0 <= j < i ==> s[j] != c)
    } else {
        s
    }
}

/// A symbol's name as it is written in the document: Erlang servers add the
/// function's arity after a slash (`foo/3`), which is dropped.
pub open spec fn unadorned(language_id: Seq<char>, name: Seq<char>) -> Seq<char> {
    if language_id == "erlang"@ { up_to_first(name, '/') } else { name }
}

/// A symbol's name as it is written in the document; see `unadorned`.
pub fn unadorned_name(language_id: &str, name: &str) -> (res: String)
    ensures
        res@ == unadorned(language_id@, name@),
{
    let mut out = String::new();
    if !str_eq(language_id, "erlang") {
        push_str(&mut out, name);
        assert(out@ =~= unadorned(language_id@, name@));
        return out;
    }
    let chars = chars_of(name);
    let mut k: usize = 0;
    while k < chars.len() && chars[k] != '/'
        invariant
            k <= chars@.len(),
            chars@ == name@,
            forall|j: int| 0 <= j < k ==> name@[j] != '/',
        decreases chars.len() - k,
    {
        k += 1;
    }
    crate::markdown::push_chars(&mut out, &chars, 0, k);
    proof {
        if k < chars.len() {
            assert(name@[k as int] == '/');
            let i = choose|i: int| 0 <= i < name@.len() && name@[i] == '/' && forall|j: int| 0 <= j < i ==> name@[j] != '/';
            if i < k {
                assert(name@[i] != '/');
            }
            if i > k {
                assert(name@[k as int] != '/');
            }
            assert(name@.subrange(0, k as int) =~= name@.take(k as int));
        } else {
            assert(name@.subrange(0, k as int) =~= name@);
        }
        assert(out@ =~= unadorned(language_id@, name@));
    }
    out
}


// ---------------------------------------------------------------------------
// Finding an identifier in a file

/// Whether a char continues a word: alphanumeric, or an underscore.
pub open spec fn is_word_char(c: char) -> bool {
    unicode_alphanumeric(c) || c == '_'
}

/// How many chars of `ident` the search has matched after reading `c`,
/// having matched `j`: one more if `c` comes next in it, else it starts over
/// (with `c` as its first char if it is one).
pub open spec fn match_step(ident: Seq<char>, j: int, c: char) -> int {
    if 0 <= j < ident.len() && ident[j] == c {
        j + 1
    } else if ident[0] == c {
        1
    } else {
        0
    }
}

/// Searching `s` from char `i` on, having matched `j` chars of `ident`: the
/// index of the last char of the first match that a char other than a word
/// char follows. A match followed by a word char (as `f` in `for`) is not one.
pub open spec fn ident_scan(ident: Seq<char>, s: Seq<char>, i: int, j: int) -> Option<int>
    decreases s.len() - i,
{
    if i < 0 || i >= s.len() {
        None
    } else if j == ident.len() && !is_word_char(s[i]) {
        Some(i - 1)
    } else {
        ident_scan(ident, s, i + 1, match_step(ident, j, s[i]))
    }
}

/// The char index at which a search from a position starts.
pub open spec fn start_char(lines: Seq<Seq<char>>, p: Position) -> int {
    line_start_char(lines, p.line as int) + p.character
}

/// Where an identifier is found after a position: the position itself for an
/// empty identifier; else the line and character of the char that the search
/// ends on (see `ident_scan`), if it finds one.
pub open spec fn identifier_found_at(lines: Seq<Seq<char>>, res: Option<Position>, found: Option<int>) -> bool {
    match found {
        Some(p) => res matches Some(pos) && pos.line < lines.len() && line_start_char(lines, pos.line as int) <= p
            < line_start_char(lines, pos.line + 1) && pos.character == p - line_start_char(lines, pos.line as int),
        None => res is None,
    }
}

/// Whether a char continues a word; see `is_word_char`.
fn word_char(c: char) -> (res: bool)
    ensures
        res == is_word_char(c),
{
    c == '_' || is_alphanumeric(c)
}

/// Looks for an identifier in a text from a position on, as symbols whose
/// servers give only the start of their declaration are found; see
/// `ident_scan`. Word boundaries guard against a match inside a longer word.
pub fn find_identifier_in_file(text: &Rope, start_from: Position, ident: &str) -> (res: Option<Position>)
    requires
        start_from.line <= rope_lines(*text).len(),
        start_char(rope_lines(*text), start_from) <= rope_chars(*text).len(),
        ident@.len() > 0 ==> match ident_scan(ident@, rope_chars(*text), start_char(rope_lines(*text), start_from), 0) {
            Some(p) => forall|l: int|
                0 <= l < rope_lines(*text).len() && line_start_char(rope_lines(*text), l) <= p < line_start_char(
                    rope_lines(*text),
                    l + 1,
                ) ==> l <= u32::MAX && p - line_start_char(rope_lines(*text), l) <= u32::MAX,
            None => true,
        },
    ensures
        ident@.len() == 0 ==> res == Some(start_from),
        ident@.len() > 0 ==> identifier_found_at(
            rope_lines(*text),
            res,
            ident_scan(ident@, rope_chars(*text), start_char(rope_lines(*text), start_from), 0),
        ),
{
    let id = chars_of(ident);
    let m = id.len();
    if m == 0 {
        return Some(start_from);
    }
    let ghost s = rope_chars(*text);
    let ghost lines = rope_lines(*text);
    let n = rope_len_chars(text);
    let line_offset = rope_line_to_char(text, start_from.line as usize);
    let char_offset = line_offset + start_from.character as usize;
    let mut i = char_offset;
    let mut j: usize = 0;
    let mut found: Option<usize> = None;
    while i < n
        invariant_except_break
            found is None,
        invariant
            char_offset <= i <= n,
            n == s.len(),
            s == rope_chars(*text),
            m == id.len(),
            m > 0,
            id@ == ident@,
            j <= m,
            j <= i - char_offset,
            ident_scan(ident@, s, char_offset as int, 0) == ident_scan(ident@, s, i as int, j as int),
        ensures
            match found {
                Some(p) => ident_scan(ident@, s, char_offset as int, 0) == Some(p as int) && p < n,
                None => ident_scan(ident@, s, char_offset as int, 0) is None,
            },
        decreases n - i,
    {
        let c = rope_char(text, i);
        if j == m && !word_char(c) {
            found = Some(i - 1);
            break;
        }
        if j < m && id[j] == c {
            j = j + 1;
        } else if id[0] == c {
            j = 1;
        } else {
            j = 0;
        }
        i = i + 1;
    }
    match found {
        Some(p) => Some(char_position(text, p)),
        None => None,
    }
}

/// The line and character of a char of a text.
fn char_position(text: &Rope, p: usize) -> (res: Position)
    requires
        p < rope_chars(*text).len(),
        forall|l: int|
            0 <= l < rope_lines(*text).len() && line_start_char(rope_lines(*text), l) <= p < line_start_char(
                rope_lines(*text),
                l + 1,
            ) ==> l <= u32::MAX && p - line_start_char(rope_lines(*text), l) <= u32::MAX,
    ensures
        res.line < rope_lines(*text).len(),
        line_start_char(rope_lines(*text), res.line as int) <= p < line_start_char(rope_lines(*text), res.line + 1),
        res.character == p - line_start_char(rope_lines(*text), res.line as int),
{
    let line = rope_char_to_line(text, p);
    let start = rope_line_to_char(text, line);
    assert(line <= u32::MAX && p - start <= u32::MAX);
    Position { line: line as u32, character: (p - start) as u32 }
}


proof fn lemma_scan_matches(ident: Seq<char>, s: Seq<char>, start: int, i: int, j: int, p: int)
    requires
        ident.len() > 0,
        0 <= start <= i,
        0 <= j <= ident.len(),
        j <= i - start,
        i <= s.len(),
        s.subrange(i - j, i) == ident.take(j),
        ident_scan(ident, s, i, j) == Some(p),
    ensures
        p + 1 < s.len(),
        start <= p + 1 - ident.len(),
        s.subrange(p + 1 - ident.len(), p + 1) == ident,
        !is_word_char(s[p + 1]),
    decreases s.len() - i,
{
    if i < s.len() {
        if j == ident.len() && !is_word_char(s[i]) {
            assert(ident.take(j) =~= ident);
        } else {
            let c = s[i];
            let k = match_step(ident, j, c);
            if 0 <= j < ident.len() && ident[j] == c {
                assert(s.subrange(i - j, i + 1) =~= s.subrange(i - j, i).push(c));
                assert(ident.take(j + 1) =~= ident.take(j).push(ident[j]));
            } else if ident[0] == c {
                assert(s.subrange(i, i + 1) =~= ident.take(1));
            } else {
                assert(s.subrange(i + 1, i + 1) =~= ident.take(0));
            }
            lemma_scan_matches(ident, s, start, i + 1, k, p);
        }
    }
}

/// What the search finds is the identifier itself: it ends at the char
/// found, lies after the start, and a char that does not continue a word
/// follows it.
pub proof fn lemma_found_identifier(ident: Seq<char>, s: Seq<char>, start: int, p: int)
    requires
        ident.len() > 0,
        0 <= start <= s.len(),
        ident_scan(ident, s, start, 0) == Some(p),
    ensures
        start <= p + 1 - ident.len(),
        p + 1 < s.len(),
        s.subrange(p + 1 - ident.len(), p + 1) == ident,
        !is_word_char(s[p + 1]),
{
    assert(s.subrange(start, start) =~= ident.take(0));
    lemma_scan_matches(ident, s, start, start, 0, p);
}

} // verus!
