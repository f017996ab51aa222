//! The text model behind buffers, and the ropey calls that read it.
//!
//! A buffer is a `ropey::Rope`. What the library reads of it is its sequence of
//! chars, split into lines the way ropey splits them.

use vstd::prelude::*;
use vstd::utf8::{encode_utf8, is_char_boundary};
use vstd::seq_lib::lemma_flatten_concat;
use crate::utf8_lemmas::lemma_utf8_len_concat;

verus! {

#[verifier::external_type_specification]
#[verifier::external_body]
pub struct ExRope(ropey::Rope);

#[verifier::external_type_specification]
#[verifier::external_body]
pub struct ExRopeSlice<'a>(ropey::RopeSlice<'a>);

/// The chars that a rope holds.
pub uninterp spec fn rope_chars(text: ropey::Rope) -> Seq<char>;

/// The chars that a rope slice holds.
pub uninterp spec fn slice_chars(slice: ropey::RopeSlice) -> Seq<char>;

/// Single chars that end a line: LF, VT, FF, CR, NEL, LS and PS.
pub open spec fn is_line_break_char(c: char) -> bool {
    c == '\n' || c == '\u{0B}' || c == '\u{0C}' || c == '\r' || c == '\u{85}' || c == '\u{2028}'
        || c == '\u{2029}'
}

/// Scanning `s` from `i`, the index just past the first line break, if any.
/// A CR followed by LF is one line break.
pub open spec fn line_break_end(s: Seq<char>, i: int) -> Option<int>
    decreases s.len() - i,
{
    if i < 0 || i >= s.len() {
        None
    } else if s[i] == '\r' && i + 1 < s.len() && s[i + 1] == '\n' {
        Some(i + 2)
    } else if is_line_break_char(s[i]) {
        Some(i + 1)
    } else {
        line_break_end(s, i + 1)
    }
}

/// The lines of `s`: each line holds its line break, and the last line is
/// what follows the last break (possibly empty).
pub open spec fn text_lines(s: Seq<char>) -> Seq<Seq<char>>
    decreases s.len(),
{
    match line_break_end(s, 0) {
        None => seq![s],
        Some(n) => {
            if 0 < n <= s.len() {
                seq![s.take(n)] + text_lines(s.skip(n))
            } else {
                seq![s]
            }
        },
    }
}

/// The lines of a rope.
pub open spec fn rope_lines(text: ropey::Rope) -> Seq<Seq<char>> {
    text_lines(rope_chars(text))
}

/// The number of UTF-8 bytes of `s`.
pub open spec fn utf8_len(s: Seq<char>) -> int {
    encode_utf8(s).len() as int
}

/// The number of UTF-16 code units of a char: two above U+FFFF, else one.
pub open spec fn utf16_units(c: char) -> int {
    if (c as u32) > 0xFFFF { 2 } else { 1 }
}

/// The number of UTF-16 code units of `s`.
pub open spec fn utf16_len(s: Seq<char>) -> int
    decreases s.len(),
{
    if s.len() == 0 {
        0
    } else {
        utf16_len(s.drop_last()) + utf16_units(s.last())
    }
}

/// The number of whole chars at the front of `s` that take at most `u`
/// UTF-16 code units: for a unit inside `s`, the index of the char that
/// holds it.
pub open spec fn char_of_unit(s: Seq<char>, u: int) -> int
    decreases s.len(),
{
    if s.len() == 0 || utf16_len(s) <= u {
        s.len() as int
    } else {
        char_of_unit(s.drop_last(), u)
    }
}

/// The byte at which line `i` of `lines` starts.
pub open spec fn line_start_byte(lines: Seq<Seq<char>>, i: int) -> int {
    utf8_len(lines.take(i).flatten())
}

pub proof fn lemma_line_break_end_bounds(s: Seq<char>, i: int)
    ensures
        line_break_end(s, i) matches Some(n) ==> i < n <= s.len(),
    decreases s.len() - i,
{
    if 0 <= i < s.len() && !(s[i] == '\r' && i + 1 < s.len() && s[i + 1] == '\n')
        && !is_line_break_char(s[i]) {
        lemma_line_break_end_bounds(s, i + 1);
    }
}

/// A text always has at least one line.
pub proof fn lemma_text_lines_nonempty(s: Seq<char>)
    ensures
        text_lines(s).len() >= 1,
    decreases s.len(),
{
    lemma_line_break_end_bounds(s, 0);
    match line_break_end(s, 0) {
        None => {},
        Some(n) => {
            lemma_text_lines_nonempty(s.skip(n));
        },
    }
}

/// The lines of a text, put back together, are the text.
pub proof fn lemma_text_lines_flatten(s: Seq<char>)
    ensures
        text_lines(s).flatten() == s,
    decreases s.len(),
{
    lemma_line_break_end_bounds(s, 0);
    match line_break_end(s, 0) {
        None => {
            seq![s].lemma_flatten_one_element();
        },
        Some(n) => {
            lemma_text_lines_flatten(s.skip(n));
            lemma_flatten_concat(seq![s.take(n)], text_lines(s.skip(n)));
            seq![s.take(n)].lemma_flatten_one_element();
            assert(s.take(n) + s.skip(n) =~= s);
        },
    }
}

/// Where line `i` starts, where line `j >= i` starts, and the length of line `i`.
pub proof fn lemma_line_start_byte_mono(lines: Seq<Seq<char>>, i: int, j: int)
    requires
        0 <= i <= j <= lines.len(),
    ensures
        line_start_byte(lines, i) <= line_start_byte(lines, j),
        i < j ==> line_start_byte(lines, i) + utf8_len(lines[i]) <= line_start_byte(lines, j),
        i < lines.len() ==> line_start_byte(lines, i + 1) == line_start_byte(lines, i) + utf8_len(lines[i]),
{
    assert(lines.take(j) =~= lines.take(i) + lines.subrange(i, j));
    lemma_flatten_concat(lines.take(i), lines.subrange(i, j));
    lemma_utf8_len_concat(lines.take(i).flatten(), lines.subrange(i, j).flatten());
    if i < j {
        assert(lines.subrange(i, j) =~= seq![lines[i]] + lines.subrange(i + 1, j));
        lemma_flatten_concat(seq![lines[i]], lines.subrange(i + 1, j));
        seq![lines[i]].lemma_flatten_one_element();
        lemma_utf8_len_concat(lines[i], lines.subrange(i + 1, j).flatten());
    }
    if i < lines.len() {
        assert(lines.take(i + 1) =~= lines.take(i).push(lines[i]));
        lines.take(i).lemma_flatten_push(lines[i]);
        lemma_utf8_len_concat(lines.take(i).flatten(), lines[i]);
    }
}

/// Every line starts within the text, and ends within it.
pub proof fn lemma_line_start_byte_bound(s: Seq<char>, i: int)
    requires
        0 <= i <= text_lines(s).len(),
    ensures
        line_start_byte(text_lines(s), i) <= utf8_len(s),
        i < text_lines(s).len() ==> line_start_byte(text_lines(s), i) + utf8_len(text_lines(s)[i])
            <= utf8_len(s),
{
    let lines = text_lines(s);
    lemma_text_lines_flatten(s);
    assert(lines.take(lines.len() as int) =~= lines);
    lemma_line_start_byte_mono(lines, i, lines.len() as int);
}

/// The char at which line `i` of `lines` starts.
pub open spec fn line_start_char(lines: Seq<Seq<char>>, i: int) -> int {
    lines.take(i).flatten().len() as int
}

/// `Rope::from_str`: the rope holds exactly the chars of `s`.
#[verifier::external_body]
pub fn rope_from_str(s: &str) -> (res: ropey::Rope)
    ensures
        rope_chars(res) == s@,
{
    ropey::Rope::from_str(s)
}

/// `Rope::len_lines`: the number of lines, counted as ropey counts them.
#[verifier::external_body]
pub fn rope_len_lines(text: &ropey::Rope) -> (res: usize)
    ensures
        res == rope_lines(*text).len(),
{
    text.len_lines()
}

/// `Rope::line`: the slice holding line `line_idx`; ropey panics past the last line.
#[verifier::external_body]
pub fn rope_line<'a>(text: &'a ropey::Rope, line_idx: usize) -> (res: ropey::RopeSlice<'a>)
    requires
        line_idx < rope_lines(*text).len(),
    ensures
        slice_chars(res) == rope_lines(*text)[line_idx as int],
{
    text.line(line_idx)
}

/// `Rope::line_to_byte`: the byte at which line `line_idx` starts; one past the
/// last line it is the rope's byte length. Ropey panics beyond that.
#[verifier::external_body]
pub fn rope_line_to_byte(text: &ropey::Rope, line_idx: usize) -> (res: usize)
    requires
        line_idx <= rope_lines(*text).len(),
    ensures
        res == line_start_byte(rope_lines(*text), line_idx as int),
{
    text.line_to_byte(line_idx)
}

/// `Rope::len_bytes`: the number of bytes of the rope's UTF-8 text.
#[verifier::external_body]
pub fn rope_len_bytes(text: &ropey::Rope) -> (res: usize)
    ensures
        res == utf8_len(rope_chars(*text)),
{
    text.len_bytes()
}

/// `Rope::byte`: the byte at `byte_idx` of the rope's UTF-8 text; ropey
/// panics past its end.
#[verifier::external_body]
pub fn rope_byte(text: &ropey::Rope, byte_idx: usize) -> (res: u8)
    requires
        byte_idx < utf8_len(rope_chars(*text)),
    ensures
        res == encode_utf8(rope_chars(*text))[byte_idx as int],
{
    text.byte(byte_idx)
}

/// `Rope::byte_slice`, read out as bytes: bytes `start..end` of the rope's
/// UTF-8 text. Ropey panics unless both ends lie on char boundaries within it.
#[verifier::external_body]
pub fn rope_byte_range(text: &ropey::Rope, start: usize, end: usize) -> (res: Vec<u8>)
    requires
        start <= end <= utf8_len(rope_chars(*text)),
        is_char_boundary(encode_utf8(rope_chars(*text)), start as int),
        is_char_boundary(encode_utf8(rope_chars(*text)), end as int),
    ensures
        res@ == encode_utf8(rope_chars(*text)).subrange(start as int, end as int),
{
    text.byte_slice(start..end).bytes().collect()
}

/// `RopeSlice::bytes_at`, taking at most `n` bytes: the bytes of the slice's
/// UTF-8 text from `byte_idx` on. Ropey panics past one-past-the-end.
#[verifier::external_body]
pub fn slice_bytes_from(slice: &ropey::RopeSlice, byte_idx: usize, n: usize) -> (res: Vec<u8>)
    requires
        byte_idx <= utf8_len(slice_chars(*slice)),
    ensures
        res@ == encode_utf8(slice_chars(*slice)).subrange(
            byte_idx as int,
            if byte_idx + n <= utf8_len(slice_chars(*slice)) {
                byte_idx + n
            } else {
                utf8_len(slice_chars(*slice))
            },
        ),
{
    slice.bytes_at(byte_idx).take(n).collect()
}

/// The text of a rope slice as a `String`.
#[verifier::external_body]
pub fn slice_to_string(slice: &ropey::RopeSlice) -> (res: String)
    ensures
        res@ == slice_chars(*slice),
{
    slice.to_string()
}

/// `RopeSlice::len_chars`.
#[verifier::external_body]
pub fn slice_len_chars(slice: &ropey::RopeSlice) -> (res: usize)
    ensures
        res == slice_chars(*slice).len(),
{
    slice.len_chars()
}

/// `RopeSlice::len_bytes`.
#[verifier::external_body]
pub fn slice_len_bytes(slice: &ropey::RopeSlice) -> (res: usize)
    ensures
        res == utf8_len(slice_chars(*slice)),
{
    slice.len_bytes()
}

/// `RopeSlice::char_to_byte`: the byte at which char `char_idx` starts;
/// ropey panics past one-past-the-end.
#[verifier::external_body]
pub fn slice_char_to_byte(slice: &ropey::RopeSlice, char_idx: usize) -> (res: usize)
    requires
        char_idx <= slice_chars(*slice).len(),
    ensures
        res == utf8_len(slice_chars(*slice).take(char_idx as int)),
{
    slice.char_to_byte(char_idx)
}

/// `RopeSlice::byte_to_char`: the index of the char that byte `byte_idx`
/// belongs to (one past the end gives one past the end); ropey panics beyond.
#[verifier::external_body]
pub fn slice_byte_to_char(slice: &ropey::RopeSlice, byte_idx: usize) -> (res: usize)
    requires
        byte_idx <= utf8_len(slice_chars(*slice)),
    ensures
        byte_idx == utf8_len(slice_chars(*slice)) ==> res == slice_chars(*slice).len(),
        byte_idx < utf8_len(slice_chars(*slice)) ==> {
            &&& res < slice_chars(*slice).len()
            &&& utf8_len(slice_chars(*slice).take(res as int)) <= byte_idx
            &&& byte_idx < utf8_len(slice_chars(*slice).take(res + 1))
        },
{
    slice.byte_to_char(byte_idx)
}


/// `RopeSlice::len_utf16_cu`: the number of UTF-16 code units.
#[verifier::external_body]
pub fn slice_len_utf16_cu(slice: &ropey::RopeSlice) -> (res: usize)
    ensures
        res == utf16_len(slice_chars(*slice)),
{
    slice.len_utf16_cu()
}

/// `RopeSlice::utf16_cu_to_char`: the index of the char that UTF-16 code
/// unit `utf16_cu_idx` belongs to (one past the end gives one past the end);
/// ropey panics beyond.
#[verifier::external_body]
pub fn slice_utf16_cu_to_char(slice: &ropey::RopeSlice, utf16_cu_idx: usize) -> (res: usize)
    requires
        utf16_cu_idx <= utf16_len(slice_chars(*slice)),
    ensures
        res == char_of_unit(slice_chars(*slice), utf16_cu_idx as int),
{
    slice.utf16_cu_to_char(utf16_cu_idx)
}

/// `RopeSlice::char_to_utf16_cu`: the UTF-16 code unit at which char
/// `char_idx` starts; ropey panics past one-past-the-end.
#[verifier::external_body]
pub fn slice_char_to_utf16_cu(slice: &ropey::RopeSlice, char_idx: usize) -> (res: usize)
    requires
        char_idx <= slice_chars(*slice).len(),
    ensures
        res == utf16_len(slice_chars(*slice).take(char_idx as int)),
{
    slice.char_to_utf16_cu(char_idx)
}

/// `Rope::len_chars`: the number of chars.
#[verifier::external_body]
pub fn rope_len_chars(text: &ropey::Rope) -> (res: usize)
    ensures
        res == rope_chars(*text).len(),
{
    text.len_chars()
}

/// `Rope::char`: the char at `char_idx`; ropey panics past the last char.
#[verifier::external_body]
pub fn rope_char(text: &ropey::Rope, char_idx: usize) -> (res: char)
    requires
        char_idx < rope_chars(*text).len(),
    ensures
        res == rope_chars(*text)[char_idx as int],
{
    text.char(char_idx)
}

/// `Rope::line_to_char`: the char at which line `line_idx` starts; one past
/// the last line it is the rope's char length. Ropey panics beyond that.
#[verifier::external_body]
pub fn rope_line_to_char(text: &ropey::Rope, line_idx: usize) -> (res: usize)
    requires
        line_idx <= rope_lines(*text).len(),
    ensures
        res == line_start_char(rope_lines(*text), line_idx as int),
{
    text.line_to_char(line_idx)
}

/// `Rope::char_to_line`: the line that holds char `char_idx` (the number of
/// line breaks before it); one past the last char it is the last line.
/// Ropey panics beyond that.
#[verifier::external_body]
pub fn rope_char_to_line(text: &ropey::Rope, char_idx: usize) -> (res: usize)
    requires
        char_idx <= rope_chars(*text).len(),
    ensures
        res < rope_lines(*text).len(),
        char_idx < rope_chars(*text).len() ==> line_start_char(rope_lines(*text), res as int) <= char_idx
            < line_start_char(rope_lines(*text), res + 1),
        char_idx == rope_chars(*text).len() ==> res == rope_lines(*text).len() - 1,
{
    text.char_to_line(char_idx)
}

} // verus!
