//! Translation between LSP positions and ranges and Kakoune's.
//!
//! LSP lines and characters are zero-based and ranges are end-exclusive;
//! Kakoune's are one-based, end-inclusive, and count columns in bytes. An
//! LSP range that ends at the start of a line (to include the line break)
//! becomes a Kakoune range ending on the line before, at a column so large
//! that Kakoune clamps it to the end of that line.
//!
//! A server's character offsets are read as bytes when it uses UTF-8 and as
//! UTF-16 code units when it uses UTF-16 (a char above U+FFFF counts two).

use vstd::prelude::*;
use ropey::{Rope, RopeSlice};
use crate::rope::{
    rope_chars, rope_lines, rope_len_lines, rope_line, slice_chars, slice_len_bytes, slice_char_to_byte,
    slice_byte_to_char, slice_len_utf16_cu, slice_utf16_cu_to_char, slice_char_to_utf16_cu, utf8_len, utf16_len,
    char_of_unit, lemma_text_lines_nonempty,
};
use crate::types::{Position, Range, KakounePosition, KakouneRange, OffsetEncoding};
use crate::utf8_lemmas::{
    lemma_utf8_len_take_strict, lemma_utf8_len_take_ge, lemma_char_of_unit, lemma_char_of_unit_start,
    lemma_utf16_len_bounds, lemma_utf16_len_take_le_utf8, lemma_utf16_len_take_strict,
};

verus! {

/// A column past the end of any line; Kakoune clamps it to the line's end.
pub const EOL_OFFSET: u32 = 1_000_000;

/// The column given for a position past the end of the text or of its line.
pub const FAR_COLUMN: u32 = 999_999_999;

// ---------------------------------------------------------------------------
// Specifications

/// The smaller of two integers.
pub open spec fn min_int(a: int, b: int) -> int {
    if a <= b { a } else { b }
}

/// Whether an LSP range is empty (an insertion point).
pub open spec fn is_insert(range: Range) -> bool {
    range.start == range.end
}

/// The conversion of a range whose characters are byte offsets is defined:
/// no counter overflows, and a range ending at the start of a line that is
/// not an insertion does not end at the start of the text.
pub open spec fn units_range_defined(range: Range) -> bool {
    let bol_insert = is_insert(range) && range.end.character == 0;
    &&& range.start.line < u32::MAX
    &&& range.start.character < u32::MAX
    &&& range.end.line < u32::MAX
    &&& (!bol_insert && range.end.character == 0 ==> range.end.line >= 1)
}

/// A range whose characters are byte offsets, as a Kakoune range.
pub open spec fn units_range_to_kakoune(range: Range) -> KakouneRange {
    let start = range.start;
    let end = range.end;
    let insert = is_insert(range);
    let bol_insert = insert && end.character == 0;
    let end_byte: int = if insert {
        start.character as int
    } else if end.character > 0 {
        end.character - 1
    } else {
        EOL_OFFSET - 1
    };
    let end_line: int = if bol_insert || end.character > 0 {
        end.line as int
    } else {
        end.line - 1
    };
    KakouneRange {
        start: KakounePosition { line: (start.line + 1) as u32, column: (start.character + 1) as u32 },
        end: KakounePosition { line: (end_line + 1) as u32, column: (end_byte + 1) as u32 },
    }
}

/// The line of `lines` that a line number names, the last one for numbers past it.
pub open spec fn clamped_line(lines: Seq<Seq<char>>, line_number: int) -> Seq<char> {
    lines[min_int(line_number, lines.len() - 1)]
}

/// The byte offset of the char of `line` that holds UTF-16 code unit `unit`
/// (of its end, for units past it).
pub open spec fn unit_byte_index(line: Seq<char>, unit: int) -> int {
    utf8_len(line.take(char_of_unit(line, unit)))
}

/// A range whose characters count UTF-16 code units, with its characters
/// turned into byte offsets (as 32-bit values) on the lines of `lines` that
/// they name.
pub open spec fn utf16_range_to_units(range: Range, lines: Seq<Seq<char>>) -> Range {
    let start_byte = unit_byte_index(clamped_line(lines, range.start.line as int), range.start.character as int);
    let end_byte = unit_byte_index(clamped_line(lines, range.end.line as int), range.end.character as int);
    Range {
        start: Position { line: range.start.line, character: start_byte as u32 },
        end: Position { line: range.end.line, character: end_byte as u32 },
    }
}

/// Whether a range can be converted under an encoding, for a text with these lines.
pub open spec fn range_defined(range: Range, lines: Seq<Seq<char>>, enc: OffsetEncoding) -> bool {
    match enc {
        OffsetEncoding::Utf8 => units_range_defined(range),
        OffsetEncoding::Utf16 => units_range_defined(utf16_range_to_units(range, lines)),
    }
}

/// An LSP range as a Kakoune range, for a text with these lines.
pub open spec fn range_to_kakoune(range: Range, lines: Seq<Seq<char>>, enc: OffsetEncoding) -> KakouneRange {
    match enc {
        OffsetEncoding::Utf8 => units_range_to_kakoune(range),
        OffsetEncoding::Utf16 => units_range_to_kakoune(utf16_range_to_units(range, lines)),
    }
}

/// An LSP position whose character is a byte offset, as a Kakoune position.
pub open spec fn units_position_to_kakoune(p: Position) -> KakounePosition {
    KakounePosition { line: (p.line + 1) as u32, column: (p.character + 1) as u32 }
}

/// An LSP position whose character counts UTF-16 code units, as a Kakoune
/// position: the first byte of the char that holds the unit; past the last
/// line or the line's last unit the column is `FAR_COLUMN`.
pub open spec fn utf16_position_to_kakoune(p: Position, lines: Seq<Seq<char>>) -> KakounePosition {
    if p.line >= lines.len() || p.character >= utf16_len(lines[p.line as int]) {
        KakounePosition { line: (p.line + 1) as u32, column: FAR_COLUMN }
    } else {
        KakounePosition {
            line: (p.line + 1) as u32,
            column: (unit_byte_index(lines[p.line as int], p.character as int) + 1) as u32,
        }
    }
}

/// Whether a position can be converted to Kakoune's without overflow.
pub open spec fn position_defined(p: Position, lines: Seq<Seq<char>>, enc: OffsetEncoding) -> bool {
    match enc {
        OffsetEncoding::Utf8 => p.line < u32::MAX && p.character < u32::MAX,
        OffsetEncoding::Utf16 => p.line < u32::MAX && (p.line < lines.len() && p.character
            < utf16_len(lines[p.line as int]) ==> unit_byte_index(lines[p.line as int], p.character as int)
            < u32::MAX),
    }
}

/// An LSP position as a Kakoune position, for a text with these lines.
pub open spec fn position_to_kakoune(p: Position, lines: Seq<Seq<char>>, enc: OffsetEncoding) -> KakounePosition {
    match enc {
        OffsetEncoding::Utf8 => units_position_to_kakoune(p),
        OffsetEncoding::Utf16 => utf16_position_to_kakoune(p, lines),
    }
}

/// A Kakoune position as an LSP position whose character is a byte offset.
pub open spec fn kakoune_to_units_position(p: KakounePosition) -> Position {
    Position { line: (p.line - 1) as u32, character: (p.column - 1) as u32 }
}

/// Whether `c` is the UTF-16 offset that a Kakoune position's column names
/// on its line: the offset of the char that holds the column's byte, or the
/// byte offset itself past the text or the line.
pub open spec fn utf16_character(p: KakounePosition, lines: Seq<Seq<char>>, c: int) -> bool {
    let line_idx = p.line - 1;
    let col_idx = p.column - 1;
    if line_idx >= lines.len() || col_idx >= utf8_len(lines[line_idx]) {
        c == col_idx
    } else {
        exists|k: int|
            0 <= k < lines[line_idx].len() && utf8_len(lines[line_idx].take(k)) <= col_idx < utf8_len(
                lines[line_idx].take(k + 1),
            ) && c == #[trigger] utf16_len(lines[line_idx].take(k))
    }
}

/// The byte offset within a line that an LSP character offset names, if the
/// line has it: bytes for UTF-8, UTF-16 code units (read as the char that
/// holds the unit) for UTF-16; one past the end is allowed.
pub open spec fn character_byte_offset(line: Seq<char>, character: int, enc: OffsetEncoding) -> Option<int> {
    match enc {
        OffsetEncoding::Utf8 => if character <= utf8_len(line) { Some(character) } else { None },
        OffsetEncoding::Utf16 => if character <= utf16_len(line) {
            Some(unit_byte_index(line, character))
        } else {
            None
        },
    }
}

// ---------------------------------------------------------------------------
// Conversions

/// Converts an LSP range to Kakoune's range for the given text.
pub fn lsp_range_to_kakoune(range: &Range, text: &Rope, offset_encoding: OffsetEncoding) -> (res: KakouneRange)
    requires
        range_defined(*range, rope_lines(*text), offset_encoding),
    ensures
        res == range_to_kakoune(*range, rope_lines(*text), offset_encoding),
{
    match offset_encoding {
        OffsetEncoding::Utf8 => lsp_range_to_kakoune_utf_8_code_units(range),
        OffsetEncoding::Utf16 => lsp_range_to_kakoune_utf_16_code_units(range, text),
    }
}

/// Whether a range whose characters are byte offsets can be converted; see
/// `units_range_defined`.
fn units_range_convertible(range: &Range) -> (res: bool)
    ensures
        res == units_range_defined(*range),
{
    let insert = range.start.line == range.end.line && range.start.character == range.end.character;
    let bol_insert = insert && range.end.character == 0;
    range.start.line < u32::MAX && range.start.character < u32::MAX && range.end.line < u32::MAX
        && (bol_insert || range.end.character != 0 || range.end.line >= 1)
}

/// Whether an LSP range can be converted to Kakoune's range for the given
/// text; see `range_defined`.
pub fn lsp_range_convertible(range: &Range, text: &Rope, offset_encoding: OffsetEncoding) -> (res: bool)
    ensures
        res == range_defined(*range, rope_lines(*text), offset_encoding),
{
    match offset_encoding {
        OffsetEncoding::Utf8 => units_range_convertible(range),
        OffsetEncoding::Utf16 => {
            let start = range.start;
            let end = range.end;
            let start_line = get_line(start.line as usize, text);
            let start_byte = get_byte_index(start.character as usize, &start_line);
            let end_line = get_line(end.line as usize, text);
            let end_byte = get_byte_index(end.character as usize, &end_line);
            let r = Range {
                start: Position { line: start.line, character: #[verifier::truncate] (start_byte as u32) },
                end: Position { line: end.line, character: #[verifier::truncate] (end_byte as u32) },
            };
            units_range_convertible(&r)
        },
    }
}

/// Whether an LSP position can be converted to Kakoune's position for the
/// given text; see `position_defined`.
pub fn lsp_position_convertible(position: &Position, text: &Rope, offset_encoding: OffsetEncoding) -> (res: bool)
    ensures
        res == position_defined(*position, rope_lines(*text), offset_encoding),
{
    match offset_encoding {
        OffsetEncoding::Utf8 => position.line < u32::MAX && position.character < u32::MAX,
        OffsetEncoding::Utf16 => {
            if position.line == u32::MAX {
                return false;
            }
            let n = rope_len_lines(text);
            if (position.line as usize) < n {
                let line = rope_line(text, position.line as usize);
                if (position.character as usize) < slice_len_utf16_cu(&line) {
                    let c = slice_utf16_cu_to_char(&line, position.character as usize);
                    proof {
                        lemma_char_of_unit(slice_chars(line), position.character as int);
                    }
                    let b = slice_char_to_byte(&line, c);
                    return b < u32::MAX as usize;
                }
            }
            true
        },
    }
}

/// Converts an LSP position to Kakoune's position for the given text.
pub fn lsp_position_to_kakoune(position: &Position, text: &Rope, offset_encoding: OffsetEncoding) -> (res: KakounePosition)
    requires
        position_defined(*position, rope_lines(*text), offset_encoding),
    ensures
        res == position_to_kakoune(*position, rope_lines(*text), offset_encoding),
{
    match offset_encoding {
        OffsetEncoding::Utf8 => lsp_position_to_kakoune_utf_8_code_units(position),
        OffsetEncoding::Utf16 => lsp_position_to_kakoune_utf_16_code_units(position, text),
    }
}

/// Converts a Kakoune position to an LSP position for the given text.
pub fn kakoune_position_to_lsp(position: &KakounePosition, text: &Rope, offset_encoding: OffsetEncoding) -> (res: Position)
    requires
        position.line >= 1,
        position.column >= 1,
    ensures
        offset_encoding == OffsetEncoding::Utf8 ==> res == kakoune_to_units_position(*position),
        offset_encoding == OffsetEncoding::Utf16 ==> res.line == position.line - 1
            && utf16_character(*position, rope_lines(*text), res.character as int),
{
    match offset_encoding {
        OffsetEncoding::Utf8 => kakoune_position_to_lsp_utf_8_code_units(position),
        OffsetEncoding::Utf16 => kakoune_position_to_lsp_utf_16_code_units(position, text),
    }
}

/// The line `line_number` of the text, or its last line for numbers past it
/// (servers use large line numbers to mean the end of the text).
pub fn get_line<'a>(line_number: usize, text: &'a Rope) -> (res: RopeSlice<'a>)
    ensures
        slice_chars(res) == clamped_line(rope_lines(*text), line_number as int),
{
    proof { lemma_text_lines_nonempty(rope_chars(*text)); }
    let len_lines = rope_len_lines(text);
    let idx = if line_number < len_lines - 1 { line_number } else { len_lines - 1 };
    rope_line(text, idx)
}

/// The byte offset of the char of a line that holds UTF-16 code unit
/// `unit`, or of its end for units past it.
fn get_byte_index(unit: usize, text: &RopeSlice) -> (res: usize)
    ensures
        res == unit_byte_index(slice_chars(*text), unit as int),
{
    let len = slice_len_utf16_cu(text);
    let idx = if unit < len { unit } else { len };
    let c = slice_utf16_cu_to_char(text, idx);
    proof {
        lemma_char_of_unit(slice_chars(*text), idx as int);
        lemma_char_of_unit(slice_chars(*text), unit as int);
    }
    slice_char_to_byte(text, c)
}

fn lsp_range_to_kakoune_utf_16_code_units(range: &Range, text: &Rope) -> (res: KakouneRange)
    requires
        units_range_defined(utf16_range_to_units(*range, rope_lines(*text))),
    ensures
        res == units_range_to_kakoune(utf16_range_to_units(*range, rope_lines(*text))),
{
    let start = range.start;
    let end = range.end;
    let start_line = get_line(start.line as usize, text);
    let start_byte = get_byte_index(start.character as usize, &start_line);
    let end_line = get_line(end.line as usize, text);
    let end_byte = get_byte_index(end.character as usize, &end_line);
    let r = Range {
        start: Position { line: start.line, character: #[verifier::truncate] (start_byte as u32) },
        end: Position { line: end.line, character: #[verifier::truncate] (end_byte as u32) },
    };
    lsp_range_to_kakoune_utf_8_code_units(&r)
}

/// Converts an LSP range whose characters are byte offsets to Kakoune's range.
pub fn lsp_range_to_kakoune_utf_8_code_units(range: &Range) -> (res: KakouneRange)
    requires
        units_range_defined(*range),
    ensures
        res == units_range_to_kakoune(*range),
{
    let start = range.start;
    let end = range.end;
    let insert = start.line == end.line && start.character == end.character;
    // An insertion at the start of a line selects that line's first char, so
    // that the text goes in before it.
    let bol_insert = insert && end.character == 0;
    let start_byte = start.character;
    let end_byte;
    if insert {
        // An empty LSP range becomes the one-char Kakoune range at its start.
        end_byte = start_byte;
    } else if end.character > 0 {
        end_byte = end.character - 1;
    } else {
        end_byte = EOL_OFFSET - 1;
    }
    let end_line = if bol_insert || end.character > 0 { end.line } else { end.line - 1 };
    KakouneRange {
        start: KakounePosition { line: start.line + 1, column: start_byte + 1 },
        end: KakounePosition { line: end_line + 1, column: end_byte + 1 },
    }
}

fn kakoune_position_to_lsp_utf_16_code_units(position: &KakounePosition, text: &Rope) -> (res: Position)
    requires
        position.line >= 1,
        position.column >= 1,
    ensures
        res.line == position.line - 1,
        utf16_character(*position, rope_lines(*text), res.character as int),
{
    let line_idx = position.line - 1;
    let col_idx = position.column - 1;
    if line_idx as usize >= rope_len_lines(text) {
        return Position { line: line_idx, character: col_idx };
    }
    let line = rope_line(text, line_idx as usize);
    if col_idx as usize >= slice_len_bytes(&line) {
        return Position { line: line_idx, character: col_idx };
    }
    let k = slice_byte_to_char(&line, col_idx as usize);
    let character = slice_char_to_utf16_cu(&line, k);
    proof {
        lemma_utf8_len_take_ge(slice_chars(line), k as int);
        lemma_utf16_len_take_le_utf8(slice_chars(line), k as int);
        assert(utf16_len(slice_chars(line).take(k as int)) == character);
    }
    Position { line: line_idx, character: character as u32 }
}

fn kakoune_position_to_lsp_utf_8_code_units(position: &KakounePosition) -> (res: Position)
    requires
        position.line >= 1,
        position.column >= 1,
    ensures
        res == kakoune_to_units_position(*position),
{
    Position { line: position.line - 1, character: position.column - 1 }
}

fn lsp_position_to_kakoune_utf_16_code_units(position: &Position, text: &Rope) -> (res: KakounePosition)
    requires
        position_defined(*position, rope_lines(*text), OffsetEncoding::Utf16),
    ensures
        res == utf16_position_to_kakoune(*position, rope_lines(*text)),
{
    if position.line as usize >= rope_len_lines(text) {
        return KakounePosition { line: position.line + 1, column: FAR_COLUMN };
    }
    let line = rope_line(text, position.line as usize);
    if position.character as usize >= slice_len_utf16_cu(&line) {
        return KakounePosition { line: position.line + 1, column: FAR_COLUMN };
    }
    let c = slice_utf16_cu_to_char(&line, position.character as usize);
    proof {
        lemma_char_of_unit(slice_chars(line), position.character as int);
    }
    let byte = slice_char_to_byte(&line, c);
    KakounePosition { line: position.line + 1, column: byte as u32 + 1 }
}

fn lsp_position_to_kakoune_utf_8_code_units(position: &Position) -> (res: KakounePosition)
    requires
        position.line < u32::MAX,
        position.character < u32::MAX,
    ensures
        res == units_position_to_kakoune(*position),
{
    KakounePosition { line: position.line + 1, column: position.character + 1 }
}

/// The byte offset within `line` that an LSP character offset names, or
/// `None` when the offset lies past the end of the line.
pub fn lsp_character_to_byte_offset(line: &RopeSlice, character: usize, offset_encoding: OffsetEncoding) -> (res: Option<usize>)
    ensures
        res matches Some(b) ==> character_byte_offset(slice_chars(*line), character as int, offset_encoding) == Some(b as int),
        res is None ==> character_byte_offset(slice_chars(*line), character as int, offset_encoding) is None,
        res matches Some(b) ==> b <= utf8_len(slice_chars(*line)),
{
    match offset_encoding {
        OffsetEncoding::Utf8 => {
            if character <= slice_len_bytes(line) {
                Some(character)
            } else {
                None
            }
        },
        OffsetEncoding::Utf16 => {
            if character <= slice_len_utf16_cu(line) {
                let c = slice_utf16_cu_to_char(line, character);
                proof {
                    lemma_char_of_unit(slice_chars(*line), character as int);
                    lemma_utf8_len_take_ge(slice_chars(*line), c as int);
                }
                Some(slice_char_to_byte(line, c))
            } else {
                None
            }
        },
    }
}

// ---------------------------------------------------------------------------
// Laws

/// With byte offsets, converting an LSP position to Kakoune's and back gives
/// the position again.
pub proof fn lemma_units_position_round_trip(p: Position)
    requires
        p.line < u32::MAX,
        p.character < u32::MAX,
    ensures
        kakoune_to_units_position(units_position_to_kakoune(p)) == p,
{
}

/// With byte offsets, converting a Kakoune position to LSP's and back gives
/// the position again.
pub proof fn lemma_units_kakoune_round_trip(p: KakounePosition)
    requires
        p.line >= 1,
        p.column >= 1,
    ensures
        units_position_to_kakoune(kakoune_to_units_position(p)) == p,
{
}

/// With UTF-16 offsets, a position at the start of a char of the text
/// converts to the Kakoune position of that char's first byte, and that
/// Kakoune position converts back to the same LSP position.
pub proof fn lemma_utf16_position_round_trip(p: Position, lines: Seq<Seq<char>>, j: int, c: int)
    requires
        p.line < lines.len(),
        p.line < u32::MAX,
        0 <= j < lines[p.line as int].len(),
        p.character == utf16_len(lines[p.line as int].take(j)),
        utf8_len(lines[p.line as int].take(j)) < u32::MAX,
        utf16_character(utf16_position_to_kakoune(p, lines), lines, c),
    ensures
        c == p.character,
{
    let line = lines[p.line as int];
    lemma_utf16_len_take_strict(line, j, line.len() as int);
    lemma_utf16_len_bounds(line);
    lemma_char_of_unit_start(line, j);
    let b = utf8_len(line.take(j));
    lemma_utf8_len_take_strict(line, j, line.len() as int);
    assert(line.take(line.len() as int) =~= line);
    let k = choose|k: int|
        0 <= k < line.len() && utf8_len(line.take(k)) <= b < utf8_len(line.take(k + 1)) && c == #[trigger] utf16_len(
            line.take(k),
        );
    if k < j {
        if k + 1 < j {
            lemma_utf8_len_take_strict(line, k + 1, j);
        }
    } else if k > j {
        lemma_utf8_len_take_strict(line, j, k);
    }
}


/// With UTF-16 offsets, a Kakoune position at the first byte of a char of
/// the text converts to an LSP position that converts back to it.
pub proof fn lemma_utf16_kakoune_round_trip(p: KakounePosition, lines: Seq<Seq<char>>, j: int, c: int)
    requires
        p.line >= 1,
        p.column >= 1,
        p.line - 1 < lines.len(),
        0 <= j < lines[p.line - 1].len(),
        p.column - 1 == utf8_len(lines[p.line - 1].take(j)),
        utf16_character(p, lines, c),
    ensures
        c == utf16_len(lines[p.line - 1].take(j)),
        utf16_position_to_kakoune(Position { line: (p.line - 1) as u32, character: c as u32 }, lines) == p,
{
    let line = lines[p.line - 1];
    let b = p.column - 1;
    lemma_utf8_len_take_strict(line, j, line.len() as int);
    assert(line.take(line.len() as int) =~= line);
    let k = choose|k: int|
        0 <= k < line.len() && utf8_len(line.take(k)) <= b < utf8_len(line.take(k + 1)) && c == #[trigger] utf16_len(
            line.take(k),
        );
    if k < j {
        if k + 1 < j {
            lemma_utf8_len_take_strict(line, k + 1, j);
        }
    } else if k > j {
        lemma_utf8_len_take_strict(line, j, k);
    }
    assert(k == j);
    lemma_utf16_len_take_le_utf8(line, j);
    lemma_utf16_len_bounds(line.take(j));
    assert(c == utf16_len(line.take(j)));
    assert(0 <= c <= b);
    lemma_utf16_len_take_strict(line, j, line.len() as int);
    lemma_utf16_len_bounds(line);
    lemma_char_of_unit_start(line, j);
}

} // verus!
