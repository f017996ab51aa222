//! Applying LSP text edits: to a rope directly, or as a Kakoune command that
//! selects the edited ranges and types the new text into them.

use vstd::prelude::*;
use vstd::seq_lib::lemma_flatten_concat;
use vstd::utf8::{
    encode_utf8, is_char_boundary, is_char_boundary_start_end_of_seq, encode_utf8_valid_utf8,
    is_char_boundary_iff_not_is_continuation_byte,
};
use ropey::Rope;
use lsp_types::Url;
use crate::rope::{
    rope_chars, rope_lines, rope_len_lines, rope_line, rope_line_to_byte, rope_len_bytes,
    rope_byte, rope_byte_range, slice_chars, slice_bytes_from, slice_to_string, utf8_len,
    line_start_byte, lemma_line_start_byte_bound, lemma_text_lines_nonempty, lemma_text_lines_flatten, text_lines,
};
use crate::position::{
    character_byte_offset, lsp_character_to_byte_offset, lsp_range_convertible, lsp_range_to_kakoune, range_defined,
    range_to_kakoune, is_insert,
};
use crate::types::{Position, Range, TextEdit, TextEditModel, KakouneRange, position_le, position_less_eq};
use crate::utf8_lemmas::{lemma_encode_utf8_concat, lemma_utf8_len_take_ge};
use crate::strings::{decimal, push_char, push_decimal, push_str};
use crate::util::{editor_escape_double_quotes, escape_keys, editor_escape_double_quotes_spec, escape_keys_spec};
use crate::types::{OffsetEncoding, kakoune_range_text, ClientId};
use crate::position::min_int;
use crate::strings::chars_of;
use crate::util::{editor_quote, editor_quote_spec};

verus! {

// ---------------------------------------------------------------------------
// Models

/// What a sequence of text edits says.
pub open spec fn models(edits: Seq<TextEdit>) -> Seq<TextEditModel> {
    edits.map_values(|e: TextEdit| e@)
}

impl TextEdit {
    /// A copy of the edit.
    pub fn copy(&self) -> (res: TextEdit)
        ensures
            res@ == self@,
    {
        TextEdit { range: self.range, new_text: self.new_text.clone() }
    }
}

// ---------------------------------------------------------------------------
// Ordering

/// The order in which edits are applied: by start, then by end.
pub open spec fn range_key_le(a: Range, b: Range) -> bool {
    (position_le(a.start, b.start) && a.start != b.start) || (a.start == b.start && position_le(a.end, b.end))
}

/// `sorted` with `e` put after every edit that does not come after it.
pub open spec fn insert_sorted(sorted: Seq<TextEditModel>, e: TextEditModel) -> Seq<TextEditModel>
    decreases sorted.len(),
{
    if sorted.len() == 0 {
        seq![e]
    } else if range_key_le(sorted.last().range, e.range) {
        sorted.push(e)
    } else {
        insert_sorted(sorted.drop_last(), e).push(sorted.last())
    }
}

/// Edits in a stable sort by range: edits with equal ranges keep their order.
pub open spec fn sort_edits(s: Seq<TextEditModel>) -> Seq<TextEditModel>
    decreases s.len(),
{
    if s.len() == 0 {
        Seq::empty()
    } else {
        insert_sorted(sort_edits(s.drop_last()), s.last())
    }
}

proof fn lemma_insert_sorted_at(s: Seq<TextEditModel>, e: TextEditModel, j: int)
    requires
        0 <= j <= s.len(),
        forall|k: int| j <= k < s.len() ==> !range_key_le(#[trigger] s[k].range, e.range),
        j > 0 ==> range_key_le(s[j - 1].range, e.range),
    ensures
        insert_sorted(s, e) == s.take(j).push(e) + s.skip(j),
    decreases s.len(),
{
    if s.len() == 0 {
        assert(s.take(j).push(e) + s.skip(j) =~= seq![e]);
    } else if range_key_le(s.last().range, e.range) {
        assert(j == s.len());
        assert(s.take(j).push(e) + s.skip(j) =~= s.push(e));
    } else {
        let d = s.drop_last();
        lemma_insert_sorted_at(d, e, j);
        assert(d.take(j).push(e) + d.skip(j) + seq![s.last()] =~= s.take(j).push(e) + s.skip(j));
        assert(insert_sorted(d, e).push(s.last()) =~= insert_sorted(d, e) + seq![s.last()]);
    }
}

/// `range_key_le` on concrete ranges.
fn range_key_less_eq(a: &Range, b: &Range) -> (res: bool)
    ensures
        res == range_key_le(*a, *b),
{
    let same_start = a.start.line == b.start.line && a.start.character == b.start.character;
    (position_less_eq(&a.start, &b.start) && !same_start) || (same_start && position_less_eq(&a.end, &b.end))
}

/// Sorts edits by range, keeping the order of edits with equal ranges.
pub fn sort_text_edits(edits: &Vec<TextEdit>) -> (res: Vec<TextEdit>)
    ensures
        models(res@) == sort_edits(models(edits@)),
{
    let mut out: Vec<TextEdit> = Vec::new();
    let mut i: usize = 0;
    while i < edits.len()
        invariant
            i <= edits.len(),
            models(out@) == sort_edits(models(edits@).take(i as int)),
        decreases edits.len() - i,
    {
        let e = edits[i].copy();
        let mut j: usize = out.len();
        while j > 0 && !range_key_less_eq(&out[j - 1].range, &e.range)
            invariant
                j <= out.len(),
                forall|k: int| j <= k < out.len() ==> !range_key_le(#[trigger] out@[k].range, e.range),
            decreases j,
        {
            j -= 1;
        }
        proof {
            let m = models(out@);
            assert forall|k: int| j <= k < m.len() implies !range_key_le(#[trigger] m[k].range, e@.range) by {
                assert(m[k] == out@[k]@);
            }
            if j > 0 {
                assert(m[j - 1] == out@[j - 1]@);
            }
            lemma_insert_sorted_at(m, e@, j as int);
            assert(models(edits@).take(i + 1).drop_last() =~= models(edits@).take(i as int));
            assert(models(edits@).take(i + 1).last() == e@);
        }
        let ghost before = out@;
        out.insert(j, e);
        proof {
            assert(models(out@) =~= models(before).take(j as int).push(e@) + models(before).skip(j as int));
        }
        i += 1;
    }
    assert(models(edits@).take(i as int) =~= models(edits@));
    out
}

// ---------------------------------------------------------------------------
// Coalescing adjacent edits

/// The byte offset in the text at which a position lies: the start of its
/// line plus its offset on the line; past the last line, or past the end of
/// the line, the line's start.
pub open spec fn position_byte_offset(p: Position, lines: Seq<Seq<char>>, enc: crate::types::OffsetEncoding) -> int {
    line_start_byte(lines, p.line as int) + (if p.line < lines.len() {
        match character_byte_offset(lines[p.line as int], p.character as int, enc) {
            Some(b) => b,
            None => 0,
        }
    } else {
        0
    })
}

/// Sorted edits with each edit that starts where the previous one ended
/// (by byte offset) merged into it; with the byte offset where the last edit ends.
pub open spec fn coalesce(s: Seq<TextEditModel>, lines: Seq<Seq<char>>, enc: crate::types::OffsetEncoding) -> (Seq<TextEditModel>, int)
    decreases s.len(),
{
    if s.len() == 0 {
        (Seq::empty(), 0)
    } else {
        let prev = coalesce(s.drop_last(), lines, enc);
        let e = s.last();
        let end_offset = position_byte_offset(e.range.end, lines, enc);
        if prev.1 == position_byte_offset(e.range.start, lines, enc) && prev.0.len() > 0 {
            let last = prev.0.last();
            (
                prev.0.drop_last().push(
                    TextEditModel {
                        range: Range { start: last.range.start, end: e.range.end },
                        new_text: last.new_text + e.new_text,
                    },
                ),
                end_offset,
            )
        } else {
            (prev.0.push(e), end_offset)
        }
    }
}

/// Coalescing is defined: every line named is at most one past the last, and
/// an edit that starts at the byte where the previous one ended starts at the
/// very position where that one ended.
pub open spec fn coalesce_defined(s: Seq<TextEditModel>, lines: Seq<Seq<char>>, enc: crate::types::OffsetEncoding) -> bool
    decreases s.len(),
{
    s.len() == 0 || {
        let prev = coalesce(s.drop_last(), lines, enc);
        let e = s.last();
        &&& coalesce_defined(s.drop_last(), lines, enc)
        &&& e.range.start.line <= lines.len()
        &&& e.range.end.line <= lines.len()
        &&& (prev.1 == position_byte_offset(e.range.start, lines, enc) && prev.0.len() > 0
            ==> e.range.start == prev.0.last().range.end)
    }
}

proof fn lemma_coalesce_defined_prefix(s: Seq<TextEditModel>, lines: Seq<Seq<char>>, enc: crate::types::OffsetEncoding, i: int)
    requires
        coalesce_defined(s, lines, enc),
        0 <= i <= s.len(),
    ensures
        coalesce_defined(s.take(i), lines, enc),
    decreases s.len(),
{
    if i == s.len() {
        assert(s.take(i) =~= s);
    } else {
        lemma_coalesce_defined_prefix(s.drop_last(), lines, enc, i);
        assert(s.drop_last().take(i) =~= s.take(i));
    }
}

/// The byte offset of a position whose line is at most one past the last.
fn position_offset(p: Position, text: &Rope, len_lines: usize, enc: crate::types::OffsetEncoding) -> (res: usize)
    requires
        len_lines == rope_lines(*text).len(),
        p.line <= len_lines,
    ensures
        res == position_byte_offset(p, rope_lines(*text), enc),
{
    let lines = Ghost(rope_lines(*text));
    let _total = rope_len_bytes(text);
    proof {
        lemma_line_start_byte_bound(rope_chars(*text), p.line as int);
    }
    let column = if (p.line as usize) < len_lines {
        let line = rope_line(text, p.line as usize);
        proof {
            lemma_utf8_len_take_ge(slice_chars(line), slice_chars(line).len() as int);
            if (p.character as int) <= slice_chars(line).len() {
                lemma_utf8_len_take_ge(slice_chars(line), p.character as int);
            }
        }
        match lsp_character_to_byte_offset(&line, p.character as usize, enc) {
            Some(b) => b,
            None => 0,
        }
    } else {
        0
    };
    rope_line_to_byte(text, p.line as usize) + column
}

/// Merges each sorted edit that starts where the previous one ended into it.
pub fn coalesce_text_edits(sorted: &Vec<TextEdit>, text: &Rope, enc: crate::types::OffsetEncoding) -> (res: Vec<TextEdit>)
    requires
        coalesce_defined(models(sorted@), rope_lines(*text), enc),
    ensures
        models(res@) == coalesce(models(sorted@), rope_lines(*text), enc).0,
{
    let ghost lines = rope_lines(*text);
    let len_lines = rope_len_lines(text);
    let mut offset: usize = 0;
    let mut out: Vec<TextEdit> = Vec::new();
    let mut i: usize = 0;
    while i < sorted.len()
        invariant
            i <= sorted.len(),
            len_lines == lines.len(),
            lines == rope_lines(*text),
            coalesce_defined(models(sorted@), lines, enc),
            models(out@) == coalesce(models(sorted@).take(i as int), lines, enc).0,
            offset == coalesce(models(sorted@).take(i as int), lines, enc).1,
        decreases sorted.len() - i,
    {
        let ghost s = models(sorted@).take(i + 1);
        proof {
            lemma_coalesce_defined_prefix(models(sorted@), lines, enc, i + 1);
            assert(s.drop_last() =~= models(sorted@).take(i as int));
            assert(s.last() == sorted@[i as int]@);
        }
        let edit = sorted[i].copy();
        let start = edit.range.start;
        let end = edit.range.end;
        let start_offset = position_offset(start, text, len_lines, enc);
        let end_offset = position_offset(end, text, len_lines, enc);
        let ghost before = out@;
        if offset == start_offset && out.len() > 0 {
            let mut last = out.pop().unwrap();
            proof {
                assert(models(before).last() == last@);
                assert(models(out@) =~= models(before).drop_last());
            }
            last.range.end = end;
            last.new_text.append(edit.new_text.as_str());
            out.push(last);
            proof {
                assert(models(out@) =~= coalesce(s, lines, enc).0);
            }
        } else {
            out.push(edit);
            proof {
                assert(models(out@) =~= coalesce(s, lines, enc).0);
            }
        }
        offset = end_offset;
        i += 1;
    }
    assert(models(sorted@).take(i as int) =~= models(sorted@));
    out
}


// ---------------------------------------------------------------------------
// Dropping edits that change nothing

/// Dropping redundant edits is defined for this edit: an edit within one line
/// names an existing line, and its end does not come before its start.
pub open spec fn redundancy_defined(e: TextEditModel, lines: Seq<Seq<char>>, enc: OffsetEncoding) -> bool {
    e.range.start.line == e.range.end.line ==> {
        &&& e.range.start.line < lines.len()
        &&& match (
            character_byte_offset(lines[e.range.start.line as int], e.range.start.character as int, enc),
            character_byte_offset(lines[e.range.start.line as int], e.range.end.character as int, enc),
        ) {
            (Some(a), Some(b)) => a <= b,
            _ => true,
        }
    }
}

/// Whether an edit is kept: it spans lines, or it lies within one line and
/// its new text differs from the bytes it replaces. An edit within one line
/// whose start or end lies past the end of the line is dropped.
pub open spec fn keep_edit(e: TextEditModel, lines: Seq<Seq<char>>, enc: OffsetEncoding) -> bool {
    if e.range.start.line != e.range.end.line {
        true
    } else {
        let line = lines[e.range.start.line as int];
        match (
            character_byte_offset(line, e.range.start.character as int, enc),
            character_byte_offset(line, e.range.end.character as int, enc),
        ) {
            (Some(a), Some(b)) => encode_utf8(e.new_text) != encode_utf8(line).subrange(a, b),
            _ => false,
        }
    }
}

/// The edits that are kept, in order.
pub open spec fn kept_edits(s: Seq<TextEditModel>, lines: Seq<Seq<char>>, enc: OffsetEncoding) -> Seq<TextEditModel>
    decreases s.len(),
{
    if s.len() == 0 {
        Seq::empty()
    } else if keep_edit(s.last(), lines, enc) {
        kept_edits(s.drop_last(), lines, enc).push(s.last())
    } else {
        kept_edits(s.drop_last(), lines, enc)
    }
}

/// Whether two byte sequences are equal.
fn bytes_equal(a: &[u8], b: &[u8]) -> (res: bool)
    ensures
        res == (a@ == b@),
{
    if a.len() != b.len() {
        return false;
    }
    let mut i: usize = 0;
    while i < a.len()
        invariant
            i <= a.len(),
            a@.len() == b@.len(),
            forall|k: int| 0 <= k < i ==> a@[k] == b@[k],
        decreases a.len() - i,
    {
        if a[i] != b[i] {
            return false;
        }
        i += 1;
    }
    assert(a@ =~= b@);
    true
}

/// Whether an edit changes the text; see `keep_edit`.
fn keep_text_edit(edit: &TextEdit, text: &Rope, enc: OffsetEncoding) -> (res: bool)
    requires
        redundancy_defined(edit@, rope_lines(*text), enc),
    ensures
        res == keep_edit(edit@, rope_lines(*text), enc),
{
    let range = edit.range;
    if range.start.line != range.end.line {
        return true;
    }
    let line = rope_line(text, range.start.line as usize);
    let start_byte = match lsp_character_to_byte_offset(&line, range.start.character as usize, enc) {
        Some(b) => b,
        None => return false,
    };
    let end_byte = match lsp_character_to_byte_offset(&line, range.end.character as usize, enc) {
        Some(b) => b,
        None => return false,
    };
    proof {
        lemma_utf8_len_take_ge(slice_chars(line), slice_chars(line).len() as int);
        if (range.start.character as int) <= slice_chars(line).len() {
            lemma_utf8_len_take_ge(slice_chars(line), range.start.character as int);
        }
        if (range.end.character as int) <= slice_chars(line).len() {
            lemma_utf8_len_take_ge(slice_chars(line), range.end.character as int);
        }
    }
    let contents = slice_bytes_from(&line, start_byte, end_byte - start_byte);
    let redundant = bytes_equal(edit.new_text.as_str().as_bytes(), contents.as_slice());
    !redundant
}

// ---------------------------------------------------------------------------
// Kakoune edits

/// How Kakoune types an edit's text: before the selection, or in place of it.
#[derive(Clone, Copy, Debug, PartialEq, Eq, Structural)]
pub enum KakouneTextEditCommand {
    InsertBefore,
    Replace,
}

/// An edit as Kakoune performs it: on a selection, with a typing command.
pub struct KakouneTextEdit {
    pub range: KakouneRange,
    pub new_text: String,
    pub command: KakouneTextEditCommand,
}

/// What a Kakoune edit says.
pub struct KakouneTextEditModel {
    pub range: KakouneRange,
    pub new_text: Seq<char>,
    pub command: KakouneTextEditCommand,
}

impl View for KakouneTextEdit {
    type V = KakouneTextEditModel;

    open spec fn view(&self) -> KakouneTextEditModel {
        KakouneTextEditModel { range: self.range, new_text: self.new_text@, command: self.command }
    }
}

/// An LSP edit as a Kakoune edit: an empty range inserts before the
/// selection, any other replaces it.
pub open spec fn kakoune_edit(e: TextEditModel, lines: Seq<Seq<char>>, enc: OffsetEncoding) -> KakouneTextEditModel {
    KakouneTextEditModel {
        range: range_to_kakoune(e.range, lines, enc),
        new_text: e.new_text,
        command: if is_insert(e.range) {
            KakouneTextEditCommand::InsertBefore
        } else {
            KakouneTextEditCommand::Replace
        },
    }
}

/// Converts an LSP text edit to the Kakoune edit that performs it.
pub fn lsp_text_edit_to_kakoune(text_edit: &TextEdit, text: &Rope, offset_encoding: OffsetEncoding) -> (res: KakouneTextEdit)
    requires
        range_defined(text_edit.range, rope_lines(*text), offset_encoding),
    ensures
        res@ == kakoune_edit(text_edit@, rope_lines(*text), offset_encoding),
{
    let range = text_edit.range;
    let insert = range.start.line == range.end.line && range.start.character == range.end.character;
    let krange = lsp_range_to_kakoune(&range, text, offset_encoding);
    let command = if insert {
        KakouneTextEditCommand::InsertBefore
    } else {
        KakouneTextEditCommand::Replace
    };
    KakouneTextEdit { range: krange, new_text: text_edit.new_text.clone(), command }
}

/// The Kakoune edits of a sequence of LSP edits.
pub open spec fn kakoune_edits(s: Seq<TextEditModel>, lines: Seq<Seq<char>>, enc: OffsetEncoding) -> Seq<KakouneTextEditModel> {
    s.map_values(|e: TextEditModel| kakoune_edit(e, lines, enc))
}

// ---------------------------------------------------------------------------
// The command

/// `s` without elements equal to the one before them.
pub open spec fn dedup(s: Seq<Seq<char>>) -> Seq<Seq<char>>
    decreases s.len(),
{
    if s.len() == 0 {
        Seq::empty()
    } else {
        let d = dedup(s.drop_last());
        if d.len() > 0 && d.last() == s.last() {
            d
        } else {
            d.push(s.last())
        }
    }
}

/// The parts joined by single spaces.
pub open spec fn join_spaced(parts: Seq<Seq<char>>) -> Seq<char>
    decreases parts.len(),
{
    if parts.len() == 0 {
        Seq::empty()
    } else if parts.len() == 1 {
        parts[0]
    } else {
        join_spaced(parts.drop_last()) + seq![' '] + parts.last()
    }
}

/// The selection descriptions of Kakoune edits, repeats of the one before dropped.
pub open spec fn selections_desc(kes: Seq<KakouneTextEditModel>) -> Seq<char> {
    join_spaced(dedup(kes.map_values(|k: KakouneTextEditModel| kakoune_range_text(k.range))))
}

/// The key of the typing command: `i` to insert, `c` to replace.
pub open spec fn command_key(c: KakouneTextEditCommand) -> char {
    match c {
        KakouneTextEditCommand::InsertBefore => 'i',
        KakouneTextEditCommand::Replace => 'c',
    }
}

/// The keys that perform edit `i`: restore the saved selections, keep the
/// `i`th, and type its text (escaped for `execute-keys` in double quotes).
pub open spec fn edit_key_text(i: int, k: KakouneTextEditModel) -> Seq<char> {
    "z"@ + (if i > 0 { decimal(i as nat) + ")"@ } else { Seq::empty() }) + "<space><esc>,<esc>"@
        + seq![command_key(k.command)] + editor_escape_double_quotes_spec(escape_keys_spec(k.new_text))
        + "<esc>"@
}

/// The keys that perform all edits, in order.
pub open spec fn edit_keys(kes: Seq<KakouneTextEditModel>) -> Seq<char>
    decreases kes.len(),
{
    if kes.len() == 0 {
        Seq::empty()
    } else {
        edit_keys(kes.drop_last()) + edit_key_text(kes.len() - 1, kes.last())
    }
}

/// The Kakoune commands that perform the edits: select every range, save the
/// selections, then type each edit's text into its selection.
pub open spec fn command_text(kes: Seq<KakouneTextEditModel>) -> Seq<char> {
    let apply = "execute-keys \""@ + edit_keys(kes) + "\""@;
    let desc = selections_desc(kes);
    if desc.len() > 0 {
        "select "@ + desc + "\nexecute-keys -save-regs \"\" Z\n"@ + apply
    } else {
        apply
    }
}

/// Appends the keys that perform edit `i`; see `edit_key_text`.
fn push_edit_keys(keys: &mut String, i: usize, k: &KakouneTextEdit)
    ensures
        final(keys)@ == old(keys)@ + edit_key_text(i as int, k@),
{
    let ghost keys_before = keys@;
    push_char(keys, 'z');
    if i > 0 {
        push_decimal(keys, i as u64);
        push_char(keys, ')');
    }
    push_str(keys, "<space><esc>,<esc>");
    let key = match k.command {
        KakouneTextEditCommand::InsertBefore => 'i',
        KakouneTextEditCommand::Replace => 'c',
    };
    push_char(keys, key);
    let escaped = editor_escape_double_quotes(escape_keys(k.new_text.as_str()).as_str());
    push_str(keys, escaped.as_str());
    push_str(keys, "<esc>");
    proof {
        reveal_strlit("z");
        reveal_strlit(")");
        assert("z"@ =~= seq!['z']);
        assert(")"@ =~= seq![')']);
        assert(keys@ =~= keys_before + edit_key_text(i as int, k@));
    }
}

/// Builds the commands that perform Kakoune edits.
pub fn kakoune_edits_command(kes: &Vec<KakouneTextEdit>) -> (res: String)
    ensures
        res@ == command_text(kes@.map_values(|k: KakouneTextEdit| k@)),
{
    let ghost ms = kes@.map_values(|k: KakouneTextEdit| k@);
    let ghost texts = ms.map_values(|k: KakouneTextEditModel| kakoune_range_text(k.range));
    let mut desc = String::new();
    let mut keys = String::new();
    let mut prev = String::new();
    let mut i: usize = 0;
    while i < kes.len()
        invariant
            i <= kes.len(),
            ms == kes@.map_values(|k: KakouneTextEdit| k@),
            texts == ms.map_values(|k: KakouneTextEditModel| kakoune_range_text(k.range)),
            desc@ == join_spaced(dedup(texts.take(i as int))),
            i > 0 ==> prev@ == texts[i - 1],
            i > 0 ==> dedup(texts.take(i as int)).len() > 0,
            i > 0 ==> dedup(texts.take(i as int)).last() == texts[i - 1],
            keys@ == edit_keys(ms.take(i as int)),
        decreases kes.len() - i,
    {
        let k = &kes[i];
        let cur = k.range.to_string();
        proof {
            assert(texts.take(i + 1).drop_last() =~= texts.take(i as int));
            assert(ms.take(i + 1).drop_last() =~= ms.take(i as int));
            assert(ms.take(i + 1).last() == kes@[i as int]@);
            assert(cur@ == texts[i as int]);
        }
        if i == 0 || !(cur == prev) {
            if i > 0 {
                push_char(&mut desc, ' ');
            }
            push_str(&mut desc, cur.as_str());
        }
        proof {
            let d = dedup(texts.take(i as int));
            if i == 0 {
                assert(texts.take(0) =~= Seq::<Seq<char>>::empty());
                assert(desc@ =~= join_spaced(dedup(texts.take(i + 1))));
            } else if cur@ == prev@ {
                assert(dedup(texts.take(i + 1)) == d);
            } else {
                assert(dedup(texts.take(i + 1)) == d.push(cur@));
                assert(d.push(cur@).drop_last() =~= d);
                assert(desc@ =~= join_spaced(dedup(texts.take(i + 1))));
            }
        }
        let ghost keys_before = keys@;
        push_edit_keys(&mut keys, i, k);
        proof {
            assert(keys@ =~= edit_keys(ms.take(i + 1)));
        }
        prev = cur;
        i += 1;
    }
    assert(texts.take(i as int) =~= texts);
    assert(ms.take(i as int) =~= ms);
    let mut apply = String::new();
    push_str(&mut apply, "execute-keys \"");
    push_str(&mut apply, keys.as_str());
    push_str(&mut apply, "\"");
    if !desc.as_str().is_empty() {
        let mut out = String::new();
        push_str(&mut out, "select ");
        push_str(&mut out, desc.as_str());
        push_str(&mut out, "\nexecute-keys -save-regs \"\" Z\n");
        push_str(&mut out, apply.as_str());
        proof {
            assert(out@ =~= command_text(ms));
        }
        out
    } else {
        proof {
            assert(apply@ =~= command_text(ms));
        }
        apply
    }
}


// ---------------------------------------------------------------------------
// From LSP edits to the command

/// Every step from LSP edits to the command is defined (see `coalesce_defined`,
/// `redundancy_defined` and `range_defined`).
pub open spec fn edits_command_defined(edits: Seq<TextEditModel>, lines: Seq<Seq<char>>, enc: OffsetEncoding) -> bool {
    let sorted = sort_edits(edits);
    let co = coalesce(sorted, lines, enc).0;
    let kept = kept_edits(co, lines, enc);
    &&& coalesce_defined(sorted, lines, enc)
    &&& forall|i: int| 0 <= i < co.len() ==> redundancy_defined(#[trigger] co[i], lines, enc)
    &&& forall|i: int| 0 <= i < kept.len() ==> range_defined(#[trigger] kept[i].range, lines, enc)
}

/// Whether sorted edits can be coalesced; see `coalesce_defined`.
fn coalesce_convertible(sorted: &Vec<TextEdit>, text: &Rope, enc: OffsetEncoding) -> (res: bool)
    ensures
        res == coalesce_defined(models(sorted@), rope_lines(*text), enc),
{
    let ghost lines = rope_lines(*text);
    let ghost ms = models(sorted@);
    let len_lines = rope_len_lines(text);
    let mut offset: usize = 0;
    let mut out: Vec<TextEdit> = Vec::new();
    let mut i: usize = 0;
    proof {
        assert(ms.take(0) =~= Seq::<TextEditModel>::empty());
    }
    while i < sorted.len()
        invariant
            i <= sorted.len(),
            len_lines == lines.len(),
            lines == rope_lines(*text),
            ms == models(sorted@),
            coalesce_defined(ms.take(i as int), lines, enc),
            models(out@) == coalesce(ms.take(i as int), lines, enc).0,
            offset == coalesce(ms.take(i as int), lines, enc).1,
        decreases sorted.len() - i,
    {
        let ghost t = ms.take(i + 1);
        proof {
            assert(t.drop_last() =~= ms.take(i as int));
            assert(t.last() == sorted@[i as int]@);
        }
        let edit = sorted[i].copy();
        let start = edit.range.start;
        let end = edit.range.end;
        if start.line as usize > len_lines || end.line as usize > len_lines {
            proof {
                if coalesce_defined(ms, lines, enc) {
                    lemma_coalesce_defined_prefix(ms, lines, enc, i + 1);
                }
            }
            return false;
        }
        let start_offset = position_offset(start, text, len_lines, enc);
        let end_offset = position_offset(end, text, len_lines, enc);
        let ghost before = out@;
        if offset == start_offset && out.len() > 0 {
            let mut last = out.pop().unwrap();
            proof {
                assert(models(before).last() == last@);
                assert(models(out@) =~= models(before).drop_last());
            }
            if !(last.range.end.line == start.line && last.range.end.character == start.character) {
                proof {
                    assert(models(before).last().range.end != start);
                    if coalesce_defined(ms, lines, enc) {
                        lemma_coalesce_defined_prefix(ms, lines, enc, i + 1);
                    }
                }
                return false;
            }
            last.range.end = end;
            last.new_text.append(edit.new_text.as_str());
            out.push(last);
            proof {
                assert(models(out@) =~= coalesce(t, lines, enc).0);
            }
        } else {
            out.push(edit);
            proof {
                assert(models(out@) =~= coalesce(t, lines, enc).0);
            }
        }
        offset = end_offset;
        i += 1;
    }
    assert(ms.take(i as int) =~= ms);
    true
}

/// Whether dropping an edit that changes nothing is defined for it; see
/// `redundancy_defined`.
fn redundancy_convertible(e: &TextEdit, text: &Rope, enc: OffsetEncoding) -> (res: bool)
    ensures
        res == redundancy_defined(e@, rope_lines(*text), enc),
{
    let range = e.range;
    if range.start.line != range.end.line {
        return true;
    }
    if range.start.line as usize >= rope_len_lines(text) {
        return false;
    }
    let line = rope_line(text, range.start.line as usize);
    match (
        lsp_character_to_byte_offset(&line, range.start.character as usize, enc),
        lsp_character_to_byte_offset(&line, range.end.character as usize, enc),
    ) {
        (Some(a), Some(b)) => a <= b,
        _ => true,
    }
}

/// Whether every step from LSP edits to the command is defined; see
/// `edits_command_defined`.
pub fn edits_command_convertible(text_edits: &Vec<TextEdit>, text: &Rope, offset_encoding: OffsetEncoding) -> (res: bool)
    ensures
        res == edits_command_defined(models(text_edits@), rope_lines(*text), offset_encoding),
{
    let ghost lines = rope_lines(*text);
    let sorted = sort_text_edits(text_edits);
    if !coalesce_convertible(&sorted, text, offset_encoding) {
        return false;
    }
    let coalesced = coalesce_text_edits(&sorted, text, offset_encoding);
    let ghost co = models(coalesced@);
    let ghost kept_all = kept_edits(co, lines, offset_encoding);
    let mut j: usize = 0;
    while j < coalesced.len()
        invariant
            j <= coalesced.len(),
            lines == rope_lines(*text),
            co == models(coalesced@),
            co == coalesce(sort_edits(models(text_edits@)), lines, offset_encoding).0,
            forall|x: int| 0 <= x < j ==> redundancy_defined(#[trigger] co[x], lines, offset_encoding),
        decreases coalesced.len() - j,
    {
        if !redundancy_convertible(&coalesced[j], text, offset_encoding) {
            proof {
                assert(co[j as int] == coalesced@[j as int]@);
            }
            return false;
        }
        proof {
            assert(co[j as int] == coalesced@[j as int]@);
        }
        j = j + 1;
    }
    proof {
        assert(co.take(0) =~= Seq::<TextEditModel>::empty());
        assert(co.skip(0) =~= co);
        assert(kept_edits(co.take(0), lines, offset_encoding) =~= Seq::<TextEditModel>::empty());
        assert(kept_edits(co.take(0), lines, offset_encoding) + kept_edits(co.skip(0), lines, offset_encoding) =~= kept_all);
    }
    let mut i: usize = 0;
    while i < coalesced.len()
        invariant
            i <= coalesced.len(),
            lines == rope_lines(*text),
            co == models(coalesced@),
            co == coalesce(sort_edits(models(text_edits@)), lines, offset_encoding).0,
            coalesce_defined(sort_edits(models(text_edits@)), lines, offset_encoding),
            kept_all == kept_edits(co, lines, offset_encoding),
            forall|x: int| 0 <= x < co.len() ==> redundancy_defined(#[trigger] co[x], lines, offset_encoding),
            forall|x: int| 0 <= x < kept_edits(co.take(i as int), lines, offset_encoding).len() ==> range_defined(
                #[trigger] kept_all[x].range,
                lines,
                offset_encoding,
            ),
            kept_edits(co.take(i as int), lines, offset_encoding).len() <= kept_all.len(),
            kept_all == kept_edits(co.take(i as int), lines, offset_encoding) + kept_edits(co.skip(i as int), lines, offset_encoding),
        decreases coalesced.len() - i,
    {
        proof {
            assert(co[i as int] == coalesced@[i as int]@);
            assert(co.take(i + 1).drop_last() =~= co.take(i as int));
            assert(co.take(i + 1).last() == co[i as int]);
            assert(co =~= co.take(i + 1) + co.skip(i + 1));
            lemma_kept_edits_concat(co.take(i + 1), co.skip(i + 1), lines, offset_encoding);
        }
        let edit = &coalesced[i];
        let ghost k = kept_edits(co.take(i as int), lines, offset_encoding);
        if keep_text_edit(edit, text, offset_encoding) {
            proof {
                assert(kept_edits(co.take(i + 1), lines, offset_encoding) == k.push(co[i as int]));
                assert(kept_all[k.len() as int] == co[i as int]);
            }
            if !lsp_range_convertible(&edit.range, text, offset_encoding) {
                return false;
            }
        } else {
            proof {
                assert(kept_edits(co.take(i + 1), lines, offset_encoding) == k);
            }
        }
        i += 1;
    }
    proof {
        assert(co.take(i as int) =~= co);
        assert(co.skip(i as int) =~= Seq::<TextEditModel>::empty());
    }
    true
}

/// The command for LSP edits: sorted, coalesced, without edits that change
/// nothing, as Kakoune edits.
pub open spec fn edits_command(edits: Seq<TextEditModel>, lines: Seq<Seq<char>>, enc: OffsetEncoding) -> Seq<char> {
    command_text(kakoune_edits(kept_edits(coalesce(sort_edits(edits), lines, enc).0, lines, enc), lines, enc))
}

proof fn lemma_kept_edits_concat(a: Seq<TextEditModel>, b: Seq<TextEditModel>, lines: Seq<Seq<char>>, enc: OffsetEncoding)
    ensures
        kept_edits(a + b, lines, enc) == kept_edits(a, lines, enc) + kept_edits(b, lines, enc),
    decreases b.len(),
{
    if b.len() == 0 {
        assert(a + b =~= a);
        assert(kept_edits(a, lines, enc) + kept_edits(b, lines, enc) =~= kept_edits(a, lines, enc));
    } else {
        assert((a + b).drop_last() =~= a + b.drop_last());
        lemma_kept_edits_concat(a, b.drop_last(), lines, enc);
        if keep_edit(b.last(), lines, enc) {
            assert(kept_edits(a + b, lines, enc) =~= kept_edits(a, lines, enc) + kept_edits(b, lines, enc));
        } else {
            assert(kept_edits(a + b, lines, enc) =~= kept_edits(a, lines, enc) + kept_edits(b, lines, enc));
        }
    }
}

/// Builds the Kakoune command for LSP edits; see `edits_command`.
pub fn edits_to_kakoune_command(text_edits: &Vec<TextEdit>, text: &Rope, offset_encoding: OffsetEncoding) -> (res: String)
    requires
        edits_command_defined(models(text_edits@), rope_lines(*text), offset_encoding),
    ensures
        res@ == edits_command(models(text_edits@), rope_lines(*text), offset_encoding),
{
    let ghost lines = rope_lines(*text);
    let sorted = sort_text_edits(text_edits);
    let coalesced = coalesce_text_edits(&sorted, text, offset_encoding);
    let ghost co = models(coalesced@);
    let ghost kept_all = kept_edits(co, lines, offset_encoding);
    let mut kes: Vec<KakouneTextEdit> = Vec::new();
    let mut i: usize = 0;
    while i < coalesced.len()
        invariant
            i <= coalesced.len(),
            lines == rope_lines(*text),
            co == models(coalesced@),
            kept_all == kept_edits(co, lines, offset_encoding),
            forall|j: int| 0 <= j < co.len() ==> redundancy_defined(#[trigger] co[j], lines, offset_encoding),
            forall|j: int| 0 <= j < kept_all.len() ==> range_defined(#[trigger] kept_all[j].range, lines, offset_encoding),
            kes@.map_values(|k: KakouneTextEdit| k@) == kakoune_edits(kept_edits(co.take(i as int), lines, offset_encoding), lines, offset_encoding),
        decreases coalesced.len() - i,
    {
        proof {
            assert(co[i as int] == coalesced@[i as int]@);
            assert(co.take(i + 1).drop_last() =~= co.take(i as int));
            assert(co.take(i + 1).last() == co[i as int]);
        }
        let edit = &coalesced[i];
        let ghost k = kept_edits(co.take(i as int), lines, offset_encoding);
        if keep_text_edit(edit, text, offset_encoding) {
            proof {
                assert(co =~= co.take(i + 1) + co.skip(i + 1));
                lemma_kept_edits_concat(co.take(i + 1), co.skip(i + 1), lines, offset_encoding);
                assert(kept_edits(co.take(i + 1), lines, offset_encoding) == k.push(co[i as int]));
                assert(kept_all[k.len() as int] == co[i as int]);
            }
            let ke = lsp_text_edit_to_kakoune(edit, text, offset_encoding);
            let ghost before = kes@;
            kes.push(ke);
            proof {
                assert(kes@.map_values(|x: KakouneTextEdit| x@) =~= before.map_values(|x: KakouneTextEdit| x@).push(ke@));
                assert(kakoune_edits(k.push(co[i as int]), lines, offset_encoding) =~= kakoune_edits(k, lines, offset_encoding).push(kakoune_edit(co[i as int], lines, offset_encoding)));
            }
        } else {
            proof {
                assert(kept_edits(co.take(i + 1), lines, offset_encoding) == kept_edits(co.take(i as int), lines, offset_encoding));
            }
        }
        i += 1;
    }
    assert(co.take(i as int) =~= co);
    kakoune_edits_command(&kes)
}

/// The end of the text as a server would name it: the end of the last
/// non-empty line when the text ends with a line break, else the start of
/// the line past the last.
pub open spec fn text_end(lines: Seq<Seq<char>>) -> Position {
    let n = lines.len();
    if lines[n - 1].len() == 0 && n >= 2 {
        Position { line: (n - 2) as u32, character: lines[n - 2].len() as u32 }
    } else {
        Position { line: n as u32, character: 0 }
    }
}

/// For an edit sent to a client that replaces the whole text, the new text,
/// ending with a line break.
pub open spec fn whole_buffer_text(has_client: bool, edits: Seq<TextEditModel>, lines: Seq<Seq<char>>) -> Option<Seq<char>> {
    if has_client && edits.len() == 1 && edits[0].range.start == (Position { line: 0, character: 0 })
        && position_le(text_end(lines), edits[0].range.end) {
        let t = edits[0].new_text;
        Some(if t.len() > 0 && t.last() == '\n' { t } else { t.push('\n') })
    } else {
        None
    }
}

/// When a single edit for a client replaces the whole text, the new text,
/// ending with a line break.
pub fn whole_buffer_replacement(client: &Option<ClientId>, text_edits: &Vec<TextEdit>, text: &Rope) -> (res: Option<String>)
    ensures
        res matches Some(t) ==> whole_buffer_text(client is Some, models(text_edits@), rope_lines(*text)) == Some(t@),
        res is None ==> whole_buffer_text(client is Some, models(text_edits@), rope_lines(*text)) is None,
{
    let ghost lines = rope_lines(*text);
    if client.is_none() || text_edits.len() != 1 {
        return None;
    }
    proof {
        lemma_text_lines_nonempty(rope_chars(*text));
        assert(models(text_edits@)[0] == text_edits@[0]@);
    }
    let range = text_edits[0].range;
    let len_lines = rope_len_lines(text);
    let last_line = rope_line(text, len_lines - 1);
    let last_line_len = crate::rope::slice_len_chars(&last_line);
    let text_end = if last_line_len == 0 && len_lines >= 2 {
        let before = rope_line(text, len_lines - 2);
        Position {
            line: #[verifier::truncate] ((len_lines - 2) as u32),
            character: #[verifier::truncate] (crate::rope::slice_len_chars(&before) as u32),
        }
    } else {
        Position { line: #[verifier::truncate] (len_lines as u32), character: 0 }
    };
    if !(range.start.line == 0 && range.start.character == 0 && position_less_eq(&text_end, &range.end)) {
        return None;
    }
    let new_text = &text_edits[0].new_text;
    let chars = chars_of(new_text.as_str());
    let mut t = new_text.clone();
    if !(chars.len() > 0 && chars[chars.len() - 1] == '\n') {
        push_char(&mut t, '\n');
    }
    Some(t)
}

// ---------------------------------------------------------------------------
// Edits from a line diff

/// One step of a line diff from an old text to a new one.
#[derive(Clone, Copy, Debug, PartialEq, Eq, Structural)]
pub enum DiffOp {
    /// Delete `len` lines starting at old line `old`.
    Delete { old: usize, len: usize },
    /// Insert, before old line `old`, `new_len` lines starting at new line `new`.
    Insert { old: usize, new: usize, new_len: usize },
    /// Replace `old_len` lines starting at old line `old` by `new_len` lines
    /// starting at new line `new`.
    Replace { old: usize, old_len: usize, new: usize, new_len: usize },
}

/// The start of line `old + len`, the sum kept within machine words.
pub open spec fn line_start_after(old: usize, len: usize) -> Position {
    Position { line: (if old + len > usize::MAX { usize::MAX as int } else { old + len }) as u32, character: 0 }
}

/// Lines `new..new + len` of `lines` (as far as there are such lines), put together.
pub open spec fn joined_lines(lines: Seq<Seq<char>>, new: int, len: int) -> Seq<char> {
    let a = min_int(new, lines.len() as int);
    let b = min_int(new + len, lines.len() as int);
    lines.subrange(a, b).flatten()
}

/// The edit that performs a diff step, for a new text with these lines.
pub open spec fn diff_edit(op: DiffOp, new_lines: Seq<Seq<char>>) -> TextEditModel {
    match op {
        DiffOp::Delete { old, len } => TextEditModel {
            range: Range { start: Position { line: old as u32, character: 0 }, end: line_start_after(old, len) },
            new_text: Seq::empty(),
        },
        DiffOp::Insert { old, new, new_len } => TextEditModel {
            range: Range {
                start: Position { line: old as u32, character: 0 },
                end: Position { line: old as u32, character: 0 },
            },
            new_text: joined_lines(new_lines, new as int, new_len as int),
        },
        DiffOp::Replace { old, old_len, new, new_len } => TextEditModel {
            range: Range { start: Position { line: old as u32, character: 0 }, end: line_start_after(old, old_len) },
            new_text: joined_lines(new_lines, new as int, new_len as int),
        },
    }
}

/// The edits that perform a diff.
pub open spec fn diff_edits(ops: Seq<DiffOp>, new_lines: Seq<Seq<char>>) -> Seq<TextEditModel> {
    ops.map_values(|op: DiffOp| diff_edit(op, new_lines))
}

/// Lines `start..` of `new` (at most `len` of them), put together.
fn join_rope_lines(new: &Rope, start: usize, len: usize) -> (res: String)
    ensures
        res@ == joined_lines(rope_lines(*new), start as int, len as int),
{
    let ghost lines = rope_lines(*new);
    let n = rope_len_lines(new);
    let a = if start < n { start } else { n };
    let b = if len <= n - a { a + len } else { n };
    proof {
        assert(a == min_int(start as int, n as int));
        assert(b == min_int(start + len, n as int));
    }
    let mut out = String::new();
    let mut k = a;
    while k < b
        invariant
            a <= k <= b <= n,
            n == lines.len(),
            lines == rope_lines(*new),
            out@ == lines.subrange(a as int, k as int).flatten(),
        decreases b - k,
    {
        let line = rope_line(new, k);
        let s = slice_to_string(&line);
        push_str(&mut out, s.as_str());
        proof {
            assert(lines.subrange(a as int, k + 1) =~= lines.subrange(a as int, k as int).push(lines[k as int]));
            lines.subrange(a as int, k as int).lemma_flatten_push(lines[k as int]);
        }
        k += 1;
    }
    out
}

/// The edit that performs a diff step, for the new text `new`.
pub fn diff_op_edit(op: &DiffOp, new: &Rope) -> (res: TextEdit)
    ensures
        res@ == diff_edit(*op, rope_lines(*new)),
{
    match *op {
        DiffOp::Delete { old, len } => TextEdit {
            range: Range {
                start: Position { line: #[verifier::truncate] (old as u32), character: 0 },
                end: Position { line: #[verifier::truncate] (old.saturating_add(len) as u32), character: 0 },
            },
            new_text: String::new(),
        },
        DiffOp::Insert { old, new: n, new_len } => {
            let start = Position { line: #[verifier::truncate] (old as u32), character: 0 };
            TextEdit { range: Range { start, end: start }, new_text: join_rope_lines(new, n, new_len) }
        },
        DiffOp::Replace { old, old_len, new: n, new_len } => TextEdit {
            range: Range {
                start: Position { line: #[verifier::truncate] (old as u32), character: 0 },
                end: Position { line: #[verifier::truncate] (old.saturating_add(old_len) as u32), character: 0 },
            },
            new_text: join_rope_lines(new, n, new_len),
        },
    }
}

/// The edits that turn the old text into `new`, following a line diff from
/// the old text's lines to `new`'s.
pub fn minimal_edit_sequence(ops: &Vec<DiffOp>, new: &Rope) -> (res: Vec<TextEdit>)
    ensures
        models(res@) == diff_edits(ops@, rope_lines(*new)),
{
    let mut out: Vec<TextEdit> = Vec::new();
    let mut i: usize = 0;
    while i < ops.len()
        invariant
            i <= ops.len(),
            models(out@) == diff_edits(ops@.take(i as int), rope_lines(*new)),
        decreases ops.len() - i,
    {
        let e = diff_op_edit(&ops[i], new);
        let ghost before = out@;
        out.push(e);
        proof {
            assert(ops@.take(i + 1) =~= ops@.take(i as int).push(ops@[i as int]));
            assert(models(out@) =~= models(before).push(e@));
            assert(diff_edits(ops@.take(i + 1), rope_lines(*new)) =~= diff_edits(ops@.take(i as int), rope_lines(*new)).push(diff_edit(ops@[i as int], rope_lines(*new))));
        }
        i += 1;
    }
    assert(ops@.take(i as int) =~= ops@);
    out
}

/// The command that a client runs to perform LSP edits on a text, or `None`
/// for no edits. A single edit for a client that replaces the whole text is
/// first split up, along `line_diff` from the old text to the new, into
/// edits of whole lines, so that Kakoune keeps selections where it can.
pub fn lsp_text_edits_to_kakoune<F: Fn(&Rope, &Rope) -> Vec<DiffOp>>(
    client: &Option<ClientId>,
    text_edits: Vec<TextEdit>,
    text: &Rope,
    offset_encoding: OffsetEncoding,
    line_diff: &F,
) -> (res: Option<String>)
    requires
        forall|old: Rope, new: Rope| #[trigger] line_diff.requires((&old, &new)),
        text_edits@.len() > 0 && whole_buffer_text(client is Some, models(text_edits@), rope_lines(*text)) is None
            ==> edits_command_defined(models(text_edits@), rope_lines(*text), offset_encoding),
        forall|new: Rope, ops: Vec<DiffOp>| #[trigger] line_diff.ensures((text, &new), ops)
            ==> edits_command_defined(diff_edits(ops@, rope_lines(new)), rope_lines(*text), offset_encoding),
    ensures
        text_edits@.len() == 0 <==> res is None,
        text_edits@.len() > 0 && whole_buffer_text(client is Some, models(text_edits@), rope_lines(*text)) is None
            ==> res.unwrap()@ == edits_command(models(text_edits@), rope_lines(*text), offset_encoding),
        whole_buffer_text(client is Some, models(text_edits@), rope_lines(*text)) matches Some(t) ==> exists|new: Rope, ops: Vec<DiffOp>|
            rope_chars(new) == t && #[trigger] line_diff.ensures((text, &new), ops)
                && res.unwrap()@ == edits_command(diff_edits(ops@, rope_lines(new)), rope_lines(*text), offset_encoding),
{
    if text_edits.len() == 0 {
        return None;
    }
    match whole_buffer_replacement(client, &text_edits, text) {
        Some(new_text) => {
            let new = crate::rope::rope_from_str(new_text.as_str());
            let ops = line_diff(text, &new);
            let edits = minimal_edit_sequence(&ops, &new);
            Some(edits_to_kakoune_command(&edits, text, offset_encoding))
        },
        None => Some(edits_to_kakoune_command(&text_edits, text, offset_encoding)),
    }
}


// ---------------------------------------------------------------------------
// The command for a buffer

/// What follows the edits: notify the servers of the change, failing when
/// the buffer's language servers are disabled.
pub open spec fn did_change_suffix() -> Seq<char> {
    "\nset-option buffer lsp_fail_if_disabled nop\ntry %[\n    lsp-did-change\n    unset-option buffer lsp_fail_if_disabled\n] catch %[\n    unset-option buffer lsp_fail_if_disabled\n    fail -- %val[error]\n]"@
}

/// The command that applies an edit command to a buffer: notified to the
/// servers, written to disk if asked, run in the buffer `buffile` (or the
/// current one) in a draft context, and for a client, in that client.
pub open spec fn buffer_command(edits: Seq<char>, client: Option<Seq<char>>, buffile: Option<Seq<char>>, write_to_disk: bool) -> Seq<char> {
    let base = edits + did_change_suffix();
    let apply = if write_to_disk { base + "\nwrite"@ } else { base };
    match client {
        None => match buffile {
            Some(b) => "evaluate-commands -buffer "@ + editor_quote_spec(b) + " -save-regs ^ "@ + editor_quote_spec(apply),
            None => "evaluate-commands -draft -save-regs ^ "@ + editor_quote_spec(apply),
        },
        Some(c) => {
            let in_file = match buffile {
                Some(b) => "edit -existing -- "@ + editor_quote_spec(b) + "\n"@ + apply,
                None => apply,
            };
            "evaluate-commands -client "@ + c + " -draft -save-regs ^ "@ + editor_quote_spec(in_file)
        },
    }
}

/// The command that applies LSP edits to the buffer of file `buffile` (or
/// the current buffer): see `lsp_text_edits_to_kakoune` and `buffer_command`.
/// `None` for no edits.
pub fn apply_text_edits_to_buffer_file<F: Fn(&Rope, &Rope) -> Vec<DiffOp>>(
    client: &Option<ClientId>,
    buffile: Option<&str>,
    text_edits: Vec<TextEdit>,
    text: &Rope,
    offset_encoding: OffsetEncoding,
    write_to_disk: bool,
    line_diff: &F,
) -> (res: Option<String>)
    requires
        forall|old: Rope, new: Rope| #[trigger] line_diff.requires((&old, &new)),
        text_edits@.len() > 0 && whole_buffer_text(client is Some, models(text_edits@), rope_lines(*text)) is None
            ==> edits_command_defined(models(text_edits@), rope_lines(*text), offset_encoding),
        forall|new: Rope, ops: Vec<DiffOp>| #[trigger] line_diff.ensures((text, &new), ops)
            ==> edits_command_defined(diff_edits(ops@, rope_lines(new)), rope_lines(*text), offset_encoding),
    ensures
        text_edits@.len() == 0 <==> res is None,
        text_edits@.len() > 0 && whole_buffer_text(client is Some, models(text_edits@), rope_lines(*text)) is None
            ==> res.unwrap()@ == buffer_command(
                edits_command(models(text_edits@), rope_lines(*text), offset_encoding),
                match client { Some(c) => Some(c.0@), None => None },
                match buffile { Some(b) => Some(b@), None => None },
                write_to_disk,
            ),
        whole_buffer_text(client is Some, models(text_edits@), rope_lines(*text)) matches Some(t) ==> exists|new: Rope, ops: Vec<DiffOp>|
            rope_chars(new) == t && #[trigger] line_diff.ensures((text, &new), ops)
                && res.unwrap()@ == buffer_command(
                    edits_command(diff_edits(ops@, rope_lines(new)), rope_lines(*text), offset_encoding),
                    match client { Some(c) => Some(c.0@), None => None },
                    match buffile { Some(b) => Some(b@), None => None },
                    write_to_disk,
                ),
{
    let ghost client_text = match client { Some(c) => Some(c.0@), None => None };
    let ghost file_text = match buffile { Some(b) => Some(b@), None => None };
    let ghost edits_model = models(text_edits@);
    let ghost whole = whole_buffer_text(client is Some, models(text_edits@), rope_lines(*text));
    let converted = lsp_text_edits_to_kakoune(client, text_edits, text, offset_encoding, line_diff);
    let edits = match converted {
        Some(e) => e,
        None => return None,
    };
    let ghost e = edits@;
    let mut apply = edits;
    push_str(&mut apply, "\nset-option buffer lsp_fail_if_disabled nop\ntry %[\n    lsp-did-change\n    unset-option buffer lsp_fail_if_disabled\n] catch %[\n    unset-option buffer lsp_fail_if_disabled\n    fail -- %val[error]\n]");
    if write_to_disk {
        push_str(&mut apply, "\nwrite");
    }
    let res = match client {
        None => match buffile {
            Some(b) => {
                let mut out = String::new();
                push_str(&mut out, "evaluate-commands -buffer ");
                push_str(&mut out, editor_quote(b).as_str());
                push_str(&mut out, " -save-regs ^ ");
                push_str(&mut out, editor_quote(apply.as_str()).as_str());
                out
            },
            None => {
                let mut out = String::new();
                push_str(&mut out, "evaluate-commands -draft -save-regs ^ ");
                push_str(&mut out, editor_quote(apply.as_str()).as_str());
                out
            },
        },
        Some(c) => {
            let in_file = match buffile {
                Some(b) => {
                    let mut out = String::new();
                    push_str(&mut out, "edit -existing -- ");
                    push_str(&mut out, editor_quote(b).as_str());
                    push_str(&mut out, "\n");
                    push_str(&mut out, apply.as_str());
                    out
                },
                None => apply,
            };
            let mut out = String::new();
            push_str(&mut out, "evaluate-commands -client ");
            push_str(&mut out, c.0.as_str());
            push_str(&mut out, " -draft -save-regs ^ ");
            push_str(&mut out, editor_quote(in_file.as_str()).as_str());
            out
        },
    };
    assert(res@ =~= buffer_command(e, client_text, file_text, write_to_disk));
    proof {
        if let Some(t) = whole {
            let (new, ops) = choose|new: Rope, ops: Vec<DiffOp>|
                rope_chars(new) == t && #[trigger] line_diff.ensures((text, &new), ops)
                    && converted.unwrap()@ == edits_command(diff_edits(ops@, rope_lines(new)), rope_lines(*text), offset_encoding);
            assert(rope_chars(new) == t && line_diff.ensures((text, &new), ops)
                && res@ == buffer_command(edits_command(diff_edits(ops@, rope_lines(new)), rope_lines(*text), offset_encoding), client_text, file_text, write_to_disk));
        }
    }
    Some(res)
}


// ---------------------------------------------------------------------------
// Applying edits to a rope

/// Why edits could not be applied to a text.
#[derive(Clone, Copy, Debug, PartialEq, Eq, Structural)]
pub enum ApplyEditError {
    /// An edit names a line past the last one.
    RangePastEndOfFile,
    /// An edit names a character past the end of its line.
    RangePastEndOfLine,
}

impl ApplyEditError {
    /// The error's message.
    pub fn message(&self) -> (res: &'static str)
        ensures
            *self == ApplyEditError::RangePastEndOfFile ==> res@ == "Text edit range extends past end of file."@,
            *self == ApplyEditError::RangePastEndOfLine ==> res@ == "Text edit range points past end of line."@,
    {
        match self {
            ApplyEditError::RangePastEndOfFile => "Text edit range extends past end of file.",
            ApplyEditError::RangePastEndOfLine => "Text edit range points past end of line.",
        }
    }
}

/// The byte offsets in the text at which an edit starts and ends, or why
/// they do not exist.
pub open spec fn edit_byte_range(e: TextEditModel, lines: Seq<Seq<char>>, enc: OffsetEncoding) -> Result<(int, int), ApplyEditError> {
    let sl = e.range.start.line as int;
    let el = e.range.end.line as int;
    if sl >= lines.len() || el >= lines.len() {
        Err(ApplyEditError::RangePastEndOfFile)
    } else {
        match (
            character_byte_offset(lines[sl], e.range.start.character as int, enc),
            character_byte_offset(lines[el], e.range.end.character as int, enc),
        ) {
            (Some(a), Some(b)) => Ok((line_start_byte(lines, sl) + a, line_start_byte(lines, el) + b)),
            _ => Err(ApplyEditError::RangePastEndOfLine),
        }
    }
}

/// Applying edits in order to a text with these lines and bytes: the output
/// so far (the text up to each edit, then its new text) and the byte offset
/// where the last edit ended; or the first error.
pub open spec fn apply_progress(edits: Seq<TextEditModel>, lines: Seq<Seq<char>>, bytes: Seq<u8>, enc: OffsetEncoding) -> Result<(Seq<u8>, int), ApplyEditError>
    decreases edits.len(),
{
    if edits.len() == 0 {
        Ok((Seq::empty(), 0))
    } else {
        match apply_progress(edits.drop_last(), lines, bytes, enc) {
            Err(err) => Err(err),
            Ok((out, cursor)) => match edit_byte_range(edits.last(), lines, enc) {
                Err(err) => Err(err),
                Ok((start, end)) => Ok((out + bytes.subrange(cursor, start) + encode_utf8(edits.last().new_text), end)),
            },
        }
    }
}

/// Applying edits is defined: each edit reached starts no earlier than the
/// previous one ended, and its ends lie on char boundaries.
pub open spec fn apply_defined(edits: Seq<TextEditModel>, lines: Seq<Seq<char>>, bytes: Seq<u8>, enc: OffsetEncoding) -> bool
    decreases edits.len(),
{
    edits.len() == 0 || {
        &&& apply_defined(edits.drop_last(), lines, bytes, enc)
        &&& match apply_progress(edits.drop_last(), lines, bytes, enc) {
            Err(_) => true,
            Ok((_, cursor)) => match edit_byte_range(edits.last(), lines, enc) {
                Err(_) => true,
                Ok((start, end)) => cursor <= start && is_char_boundary(bytes, start) && is_char_boundary(bytes, end),
            },
        }
    }
}

/// The bytes of a text with edits applied in order, or the first error.
pub open spec fn apply_edits_to_text(edits: Seq<TextEditModel>, text: Seq<char>, enc: OffsetEncoding) -> Result<Seq<u8>, ApplyEditError> {
    let bytes = encode_utf8(text);
    match apply_progress(edits, text_lines(text), bytes, enc) {
        Err(err) => Err(err),
        Ok((out, cursor)) => Ok(out + bytes.subrange(cursor, bytes.len() as int)),
    }
}

proof fn lemma_apply_defined_prefix(edits: Seq<TextEditModel>, lines: Seq<Seq<char>>, bytes: Seq<u8>, enc: OffsetEncoding, i: int)
    requires
        apply_defined(edits, lines, bytes, enc),
        0 <= i <= edits.len(),
    ensures
        apply_defined(edits.take(i), lines, bytes, enc),
    decreases edits.len(),
{
    if i == edits.len() {
        assert(edits.take(i) =~= edits);
    } else {
        lemma_apply_defined_prefix(edits.drop_last(), lines, bytes, enc, i);
        assert(edits.drop_last().take(i) =~= edits.take(i));
    }
}

/// Once applying the first edits fails, the edits after them add no
/// condition for applying to be defined.
proof fn lemma_apply_defined_after_err(edits: Seq<TextEditModel>, lines: Seq<Seq<char>>, bytes: Seq<u8>, enc: OffsetEncoding, i: int)
    requires
        0 <= i <= edits.len(),
        apply_progress(edits.take(i), lines, bytes, enc) is Err,
    ensures
        apply_defined(edits, lines, bytes, enc) == apply_defined(edits.take(i), lines, bytes, enc),
    decreases edits.len() - i,
{
    if i == edits.len() {
        assert(edits.take(i) =~= edits);
    } else {
        let t = edits.take(i + 1);
        assert(t.drop_last() =~= edits.take(i));
        assert(apply_progress(t, lines, bytes, enc) == apply_progress(edits.take(i), lines, bytes, enc));
        assert(apply_defined(t, lines, bytes, enc) == apply_defined(edits.take(i), lines, bytes, enc));
        lemma_apply_defined_after_err(edits, lines, bytes, enc, i + 1);
    }
}

/// Whether a byte offset of the text lies on a char boundary.
fn char_boundary(text: &Rope, total: usize, b: usize) -> (res: bool)
    requires
        total == utf8_len(rope_chars(*text)),
    ensures
        res == is_char_boundary(encode_utf8(rope_chars(*text)), b as int),
{
    let ghost bytes = encode_utf8(rope_chars(*text));
    proof {
        encode_utf8_valid_utf8(rope_chars(*text));
        is_char_boundary_start_end_of_seq(bytes);
    }
    if b == total {
        return true;
    }
    if b > total {
        proof {
            if b > 0 {
                reveal_with_fuel(is_char_boundary, 1);
            }
        }
        return false;
    }
    let x = rope_byte(text, b);
    proof {
        is_char_boundary_iff_not_is_continuation_byte(bytes, b as int);
    }
    !(0x80 <= x && x <= 0xbf)
}

/// Whether applying the edits is defined; see `apply_defined`.
pub fn apply_edits_convertible(text: &Rope, text_edits: &Vec<TextEdit>, offset_encoding: OffsetEncoding) -> (res: bool)
    ensures
        res == apply_defined(models(text_edits@), rope_lines(*text), encode_utf8(rope_chars(*text)), offset_encoding),
{
    let ghost lines = rope_lines(*text);
    let ghost bytes = encode_utf8(rope_chars(*text));
    let ghost ms = models(text_edits@);
    let text_len_lines = rope_len_lines(text);
    let total = rope_len_bytes(text);
    let mut cursor: usize = 0;
    let ghost mut out: Seq<u8> = Seq::empty();
    let mut i: usize = 0;
    proof {
        assert(ms.take(0) =~= Seq::<TextEditModel>::empty());
    }
    while i < text_edits.len()
        invariant
            i <= text_edits.len(),
            lines == rope_lines(*text),
            bytes == encode_utf8(rope_chars(*text)),
            ms == models(text_edits@),
            text_len_lines == lines.len(),
            total == bytes.len(),
            apply_defined(ms.take(i as int), lines, bytes, offset_encoding),
            apply_progress(ms.take(i as int), lines, bytes, offset_encoding) == Ok::<(Seq<u8>, int), ApplyEditError>((out, cursor as int)),
        decreases text_edits.len() - i,
    {
        let ghost t = ms.take(i + 1);
        proof {
            assert(t.drop_last() =~= ms.take(i as int));
            assert(t.last() == text_edits@[i as int]@);
        }
        let te = &text_edits[i];
        let start = te.range.start;
        let end = te.range.end;
        if start.line as usize >= text_len_lines || end.line as usize >= text_len_lines {
            proof {
                lemma_apply_defined_after_err(ms, lines, bytes, offset_encoding, i + 1);
            }
            return true;
        }
        let start_offset = line_character_offset(text, start.line as usize, start.character, offset_encoding);
        let end_offset = line_character_offset(text, end.line as usize, end.character, offset_encoding);
        if start_offset.is_none() || end_offset.is_none() {
            proof {
                lemma_apply_defined_after_err(ms, lines, bytes, offset_encoding, i + 1);
            }
            return true;
        }
        let start_byte = start_offset.unwrap();
        let end_byte = end_offset.unwrap();
        if !(cursor <= start_byte && char_boundary(text, total, start_byte) && char_boundary(text, total, end_byte)) {
            proof {
                if apply_defined(ms, lines, bytes, offset_encoding) {
                    lemma_apply_defined_prefix(ms, lines, bytes, offset_encoding, i + 1);
                }
            }
            return false;
        }
        proof {
            out = out + bytes.subrange(cursor as int, start_byte as int) + encode_utf8(t.last().new_text);
        }
        cursor = end_byte;
        i += 1;
    }
    assert(ms.take(i as int) =~= ms);
    true
}

/// Appends `b` to `out`.
fn extend_bytes(out: &mut Vec<u8>, b: &[u8])
    ensures
        final(out)@ == old(out)@ + b@,
{
    let ghost start = out@;
    let mut i: usize = 0;
    while i < b.len()
        invariant
            i <= b.len(),
            out@ == start + b@.take(i as int),
        decreases b.len() - i,
    {
        out.push(b[i]);
        i += 1;
        assert(out@ =~= start + b@.take(i as int));
    }
    assert(b@.take(i as int) =~= b@);
}

/// The byte offset in the text at which a line's character offset lies, if
/// the line has it.
fn line_character_offset(text: &Rope, line_idx: usize, character: u32, enc: OffsetEncoding) -> (res: Option<usize>)
    requires
        line_idx < rope_lines(*text).len(),
    ensures
        res matches Some(b) ==> character_byte_offset(rope_lines(*text)[line_idx as int], character as int, enc) matches Some(a)
            && b == line_start_byte(rope_lines(*text), line_idx as int) + a,
        res is None ==> character_byte_offset(rope_lines(*text)[line_idx as int], character as int, enc) is None,
        res matches Some(b) ==> b <= utf8_len(rope_chars(*text)),
{
    let _total = rope_len_bytes(text);
    proof {
        lemma_line_start_byte_bound(rope_chars(*text), line_idx as int);
    }
    let line = rope_line(text, line_idx);
    proof {
        lemma_utf8_len_take_ge(slice_chars(line), slice_chars(line).len() as int);
        if (character as int) <= slice_chars(line).len() {
            lemma_utf8_len_take_ge(slice_chars(line), character as int);
        }
    }
    match lsp_character_to_byte_offset(&line, character as usize, enc) {
        Some(a) => Some(rope_line_to_byte(text, line_idx) + a),
        None => None,
    }
}

/// The text's UTF-8 bytes with the edits applied in order; fails on the
/// first edit that names a line past the last or a character past the end
/// of its line.
pub fn apply_text_edits_to_rope(text: &Rope, text_edits: &Vec<TextEdit>, offset_encoding: OffsetEncoding) -> (res: Result<Vec<u8>, ApplyEditError>)
    requires
        apply_defined(models(text_edits@), rope_lines(*text), encode_utf8(rope_chars(*text)), offset_encoding),
    ensures
        match res {
            Ok(v) => apply_edits_to_text(models(text_edits@), rope_chars(*text), offset_encoding) == Ok::<Seq<u8>, ApplyEditError>(v@),
            Err(e) => apply_edits_to_text(models(text_edits@), rope_chars(*text), offset_encoding) == Err::<Seq<u8>, ApplyEditError>(e),
        },
{
    let ghost lines = rope_lines(*text);
    let ghost bytes = encode_utf8(rope_chars(*text));
    let ghost ms = models(text_edits@);
    let mut output: Vec<u8> = Vec::new();
    let text_len_lines = rope_len_lines(text);
    let total = rope_len_bytes(text);
    let mut cursor: usize = 0;
    proof {
        encode_utf8_valid_utf8(rope_chars(*text));
        is_char_boundary_start_end_of_seq(bytes);
    }
    let mut i: usize = 0;
    while i < text_edits.len()
        invariant
            i <= text_edits.len(),
            lines == rope_lines(*text),
            bytes == encode_utf8(rope_chars(*text)),
            ms == models(text_edits@),
            text_len_lines == lines.len(),
            total == bytes.len(),
            apply_defined(ms, lines, bytes, offset_encoding),
            apply_progress(ms.take(i as int), lines, bytes, offset_encoding) == Ok::<(Seq<u8>, int), ApplyEditError>((output@, cursor as int)),
            cursor <= total,
            is_char_boundary(bytes, cursor as int),
        decreases text_edits.len() - i,
    {
        proof {
            lemma_apply_defined_prefix(ms, lines, bytes, offset_encoding, i + 1);
            assert(ms.take(i + 1).drop_last() =~= ms.take(i as int));
            assert(ms.take(i + 1).last() == text_edits@[i as int]@);
        }
        let te = &text_edits[i];
        let start = te.range.start;
        let end = te.range.end;
        if start.line as usize >= text_len_lines || end.line as usize >= text_len_lines {
            proof {
                lemma_apply_progress_err_extends(ms, lines, bytes, offset_encoding, i + 1);
            }
            return Err(ApplyEditError::RangePastEndOfFile);
        }
        let start_offset = line_character_offset(text, start.line as usize, start.character, offset_encoding);
        let end_offset = line_character_offset(text, end.line as usize, end.character, offset_encoding);
        if start_offset.is_none() || end_offset.is_none() {
            proof {
                lemma_apply_progress_err_extends(ms, lines, bytes, offset_encoding, i + 1);
            }
            return Err(ApplyEditError::RangePastEndOfLine);
        }
        let start_byte = start_offset.unwrap();
        let end_byte = end_offset.unwrap();
        let chunk = rope_byte_range(text, cursor, start_byte);
        extend_bytes(&mut output, chunk.as_slice());
        extend_bytes(&mut output, te.new_text.as_str().as_bytes());
        cursor = end_byte;
        i += 1;
        proof {
            assert(ms.take(i as int) == ms.take(i as int));
        }
    }
    assert(ms.take(i as int) =~= ms);
    let rest = rope_byte_range(text, cursor, total);
    extend_bytes(&mut output, rest.as_slice());
    Ok(output)
}

/// Once applying a prefix of the edits fails, applying all of them fails the same way.
proof fn lemma_apply_progress_err_extends(edits: Seq<TextEditModel>, lines: Seq<Seq<char>>, bytes: Seq<u8>, enc: OffsetEncoding, i: int)
    requires
        0 <= i <= edits.len(),
        apply_progress(edits.take(i), lines, bytes, enc) is Err,
    ensures
        apply_progress(edits, lines, bytes, enc) == apply_progress(edits.take(i), lines, bytes, enc),
    decreases edits.len() - i,
{
    if i == edits.len() {
        assert(edits.take(i) =~= edits);
    } else {
        assert(edits.take(i + 1).drop_last() =~= edits.take(i));
        assert(apply_progress(edits.take(i + 1), lines, bytes, enc) == apply_progress(edits.take(i), lines, bytes, enc));
        lemma_apply_progress_err_extends(edits, lines, bytes, enc, i + 1);
    }
}


// ---------------------------------------------------------------------------
// Laws

/// Whether edits are in the order in which they are applied.
pub open spec fn edits_sorted(s: Seq<TextEditModel>) -> bool {
    forall|i: int, j: int| 0 <= i < j < s.len() ==> range_key_le(#[trigger] s[i].range, #[trigger] s[j].range)
}

/// The edits of `s` whose range is `r`, in order.
pub open spec fn edits_with_range(s: Seq<TextEditModel>, r: Range) -> Seq<TextEditModel>
    decreases s.len(),
{
    if s.len() == 0 {
        Seq::empty()
    } else if s.last().range == r {
        edits_with_range(s.drop_last(), r).push(s.last())
    } else {
        edits_with_range(s.drop_last(), r)
    }
}

proof fn lemma_range_key_le_total(a: Range, b: Range)
    ensures
        range_key_le(a, b) || range_key_le(b, a),
        range_key_le(a, a),
{
}

proof fn lemma_range_key_le_trans(a: Range, b: Range, c: Range)
    requires
        range_key_le(a, b),
        range_key_le(b, c),
    ensures
        range_key_le(a, c),
{
}

proof fn lemma_insert_sorted_props(s: Seq<TextEditModel>, e: TextEditModel, r: Range)
    requires
        edits_sorted(s),
    ensures
        edits_sorted(insert_sorted(s, e)),
        insert_sorted(s, e).to_multiset() == s.to_multiset().insert(e),
        edits_with_range(insert_sorted(s, e), r) == (if e.range == r {
            edits_with_range(s, r).push(e)
        } else {
            edits_with_range(s, r)
        }),
    decreases s.len(),
{
    broadcast use vstd::seq_lib::group_to_multiset_ensures;
    if s.len() == 0 {
        assert(insert_sorted(s, e) =~= seq![e]);
        assert(seq![e] =~= Seq::<TextEditModel>::empty().push(e));
        assert(s =~= Seq::<TextEditModel>::empty());
        assert(seq![e].drop_last() =~= Seq::<TextEditModel>::empty());
        assert(edits_with_range(Seq::<TextEditModel>::empty(), r) =~= Seq::<TextEditModel>::empty());
    } else if range_key_le(s.last().range, e.range) {
        let t = s.push(e);
        assert forall|i: int, j: int| 0 <= i < j < t.len() implies range_key_le(#[trigger] t[i].range, #[trigger] t[j].range) by {
            if j == t.len() - 1 && i < s.len() - 1 {
                lemma_range_key_le_trans(s[i].range, s.last().range, e.range);
            }
        }
        assert(t.drop_last() =~= s);
    } else {
        let d = s.drop_last();
        assert(edits_sorted(d));
        lemma_insert_sorted_props(d, e, r);
        let t = insert_sorted(d, e);
        let u = t.push(s.last());
        assert forall|i: int, j: int| 0 <= i < j < u.len() implies range_key_le(#[trigger] u[i].range, #[trigger] u[j].range) by {
            if j == u.len() - 1 {
                // u[i] is e or an element of d; both come no later than s.last().
                lemma_range_key_le_total(s.last().range, e.range);
                assert(t.to_multiset().count(u[i]) > 0) by {
                    assert(t[i] == u[i]);
                    t.to_multiset_ensures();
                }
                if u[i] != e {
                    assert(d.to_multiset().count(u[i]) > 0);
                    d.to_multiset_ensures();
                    let k = choose|k: int| 0 <= k < d.len() && d[k] == u[i];
                    assert(s[k] == u[i]);
                    assert(range_key_le(s[k].range, s[s.len() - 1].range));
                }
            }
        }
        assert(u.drop_last() =~= t);
        assert(u.last() == s.last());
        assert(s =~= d.push(s.last()));
        assert(s.drop_last() =~= d);
        if e.range == r {
            assert(s.last().range != r) by {
                lemma_range_key_le_total(e.range, e.range);
            }
        }
    }
}

/// Sorting edits yields them in order of their ranges.
pub proof fn lemma_sort_edits_sorted(s: Seq<TextEditModel>)
    ensures
        edits_sorted(sort_edits(s)),
    decreases s.len(),
{
    if s.len() > 0 {
        lemma_sort_edits_sorted(s.drop_last());
        lemma_insert_sorted_props(sort_edits(s.drop_last()), s.last(), s.last().range);
    }
}

/// Sorting edits neither loses nor adds an edit.
pub proof fn lemma_sort_edits_permutation(s: Seq<TextEditModel>)
    ensures
        sort_edits(s).to_multiset() == s.to_multiset(),
    decreases s.len(),
{
    broadcast use vstd::seq_lib::group_to_multiset_ensures;
    if s.len() > 0 {
        lemma_sort_edits_permutation(s.drop_last());
        lemma_sort_edits_sorted(s.drop_last());
        lemma_insert_sorted_props(sort_edits(s.drop_last()), s.last(), s.last().range);
        assert(s =~= s.drop_last().push(s.last()));
    }
}

/// Sorting is stable: edits with the same range (such as several insertions
/// at one place) keep their order.
pub proof fn lemma_sort_edits_stable(s: Seq<TextEditModel>, r: Range)
    ensures
        edits_with_range(sort_edits(s), r) == edits_with_range(s, r),
    decreases s.len(),
{
    if s.len() > 0 {
        lemma_sort_edits_stable(s.drop_last(), r);
        lemma_sort_edits_sorted(s.drop_last());
        lemma_insert_sorted_props(sort_edits(s.drop_last()), s.last(), r);
    }
}

/// Applying no edits to a text gives back its bytes.
pub proof fn lemma_apply_no_edits(text: Seq<char>, enc: OffsetEncoding)
    ensures
        apply_edits_to_text(Seq::empty(), text, enc) == Ok::<Seq<u8>, ApplyEditError>(encode_utf8(text)),
{
    let bytes = encode_utf8(text);
    assert(Seq::<u8>::empty() + bytes.subrange(0, bytes.len() as int) =~= bytes);
}

proof fn lemma_edits_with_range_holds(s: Seq<TextEditModel>, r: Range)
    requires
        edits_with_range(s, r).len() > 0,
    ensures
        exists|i: int| 0 <= i < s.len() && (#[trigger] s[i]).range == r,
    decreases s.len(),
{
    if s.last().range != r {
        lemma_edits_with_range_holds(s.drop_last(), r);
        let i = choose|i: int| 0 <= i < s.drop_last().len() && (#[trigger] s.drop_last()[i]).range == r;
        assert(s[i] == s.drop_last()[i]);
    } else {
        assert(s[s.len() - 1].range == r);
    }
}

/// Two sequences of edits in order of their ranges, with the same edits of
/// each range in the same order, are the same.
proof fn lemma_sorted_edits_unique(a: Seq<TextEditModel>, b: Seq<TextEditModel>)
    requires
        edits_sorted(a),
        edits_sorted(b),
        forall|r: Range| #[trigger] edits_with_range(a, r) == edits_with_range(b, r),
    ensures
        a == b,
    decreases a.len(),
{
    if a.len() == 0 && b.len() == 0 {
        assert(a =~= b);
    } else if a.len() == 0 {
        let r = b.last().range;
        assert(edits_with_range(b, r).len() > 0);
        assert(edits_with_range(a, r) =~= Seq::<TextEditModel>::empty());
    } else if b.len() == 0 {
        let r = a.last().range;
        assert(edits_with_range(a, r).len() > 0);
        assert(edits_with_range(b, r) =~= Seq::<TextEditModel>::empty());
    } else {
        let ra = a.last().range;
        let rb = b.last().range;
        assert(edits_with_range(a, ra).len() > 0);
        assert(edits_with_range(b, rb).len() > 0);
        lemma_edits_with_range_holds(b, ra);
        lemma_edits_with_range_holds(a, rb);
        let i = choose|i: int| 0 <= i < b.len() && (#[trigger] b[i]).range == ra;
        let j = choose|j: int| 0 <= j < a.len() && (#[trigger] a[j]).range == rb;
        if i < b.len() - 1 {
            assert(range_key_le(b[i].range, b[b.len() - 1].range));
        } else {
            lemma_range_key_le_total(ra, ra);
        }
        if j < a.len() - 1 {
            assert(range_key_le(a[j].range, a[a.len() - 1].range));
        } else {
            lemma_range_key_le_total(rb, rb);
        }
        assert(ra == rb);
        assert(edits_with_range(a, ra).last() == a.last());
        assert(edits_with_range(b, ra).last() == b.last());
        let da = a.drop_last();
        let db = b.drop_last();
        assert forall|r: Range| #[trigger] edits_with_range(da, r) == edits_with_range(db, r) by {
            if r == ra {
                assert(edits_with_range(a, r).drop_last() == edits_with_range(da, r));
                assert(edits_with_range(b, r).drop_last() == edits_with_range(db, r));
            } else {
                assert(edits_with_range(a, r) == edits_with_range(da, r));
                assert(edits_with_range(b, r) == edits_with_range(db, r));
            }
        }
        assert forall|x: int, y: int| 0 <= x < y < da.len() implies range_key_le(#[trigger] da[x].range, #[trigger] da[y].range) by {
            assert(da[x] == a[x] && da[y] == a[y]);
        }
        assert forall|x: int, y: int| 0 <= x < y < db.len() implies range_key_le(#[trigger] db[x].range, #[trigger] db[y].range) by {
            assert(db[x] == b[x] && db[y] == b[y]);
        }
        lemma_sorted_edits_unique(da, db);
        assert(a =~= da.push(a.last()));
        assert(b =~= db.push(b.last()));
    }
}

/// The order in which edits come matters only among edits of the same
/// range: two lists with the same edits of each range, in the same order,
/// are sorted alike, and give the same command and the same whole-buffer
/// replacement.
pub proof fn lemma_edit_order_irrelevant(s1: Seq<TextEditModel>, s2: Seq<TextEditModel>, lines: Seq<Seq<char>>, enc: OffsetEncoding, has_client: bool)
    requires
        forall|r: Range| #[trigger] edits_with_range(s1, r) == edits_with_range(s2, r),
    ensures
        sort_edits(s1) == sort_edits(s2),
        edits_command(s1, lines, enc) == edits_command(s2, lines, enc),
        whole_buffer_text(has_client, s1, lines) == whole_buffer_text(has_client, s2, lines),
{
    lemma_sort_edits_sorted(s1);
    lemma_sort_edits_sorted(s2);
    assert forall|r: Range| #[trigger] edits_with_range(sort_edits(s1), r) == edits_with_range(sort_edits(s2), r) by {
        lemma_sort_edits_stable(s1, r);
        lemma_sort_edits_stable(s2, r);
    }
    lemma_sorted_edits_unique(sort_edits(s1), sort_edits(s2));
    lemma_sort_edits_permutation(s1);
    lemma_sort_edits_permutation(s2);
    vstd::seq_lib::to_multiset_len(s1);
    vstd::seq_lib::to_multiset_len(s2);
    vstd::seq_lib::to_multiset_len(sort_edits(s1));
    assert(s1.len() == s2.len());
    if s1.len() == 1 && s2.len() == 1 {
        assert(sort_edits(s1) == insert_sorted(sort_edits(s1.drop_last()), s1.last()));
        assert(s1.drop_last() =~= Seq::<TextEditModel>::empty());
        assert(s2.drop_last() =~= Seq::<TextEditModel>::empty());
        assert(sort_edits(s1) =~= s1);
        assert(sort_edits(s2) =~= s2);
    }
}

// ---------------------------------------------------------------------------
// Line diffs

/// The old line at which a diff step ends.
pub open spec fn op_old_end(op: DiffOp) -> int {
    match op {
        DiffOp::Delete { old, len } => old + len,
        DiffOp::Insert { old, .. } => old as int,
        DiffOp::Replace { old, old_len, .. } => old + old_len,
    }
}

/// The old line at which a diff step starts.
pub open spec fn op_old(op: DiffOp) -> int {
    match op {
        DiffOp::Delete { old, .. } => old as int,
        DiffOp::Insert { old, .. } => old as int,
        DiffOp::Replace { old, .. } => old as int,
    }
}

/// Where a line diff has got to in the old and the new lines after its
/// steps, when the steps describe the old lines turned into the new ones so
/// far: each step starts at or after where the last ended, the lines between
/// are the same in both, and a step that inserts takes new lines from where
/// the new lines have got to. Every line named lies within the lines.
pub open spec fn diff_walk(ops: Seq<DiffOp>, old: Seq<Seq<char>>, new: Seq<Seq<char>>) -> Option<(int, int)>
    decreases ops.len(),
{
    if ops.len() == 0 {
        Some((0, 0))
    } else {
        match diff_walk(ops.drop_last(), old, new) {
            None => None,
            Some((o, n)) => {
                let op = ops.last();
                let gap = op_old(op) - o;
                if gap < 0 || op_old_end(op) < op_old(op) || op_old_end(op) >= old.len() || n + gap > new.len()
                    || old.subrange(o, op_old(op)) != new.subrange(n, n + gap) {
                    None
                } else {
                    match op {
                        DiffOp::Delete { .. } => Some((op_old_end(op), n + gap)),
                        DiffOp::Insert { new: nw, new_len, .. } => if nw != n + gap || nw + new_len > new.len() {
                            None
                        } else {
                            Some((op_old_end(op), nw + new_len))
                        },
                        DiffOp::Replace { new: nw, new_len, .. } => if nw != n + gap || nw + new_len > new.len() {
                            None
                        } else {
                            Some((op_old_end(op), nw + new_len))
                        },
                    }
                }
            },
        }
    }
}

/// Whether a line diff turns the old lines into the new ones: its steps
/// describe them (see `diff_walk`), and the lines after the last step are
/// the same in both.
pub open spec fn diff_describes(ops: Seq<DiffOp>, old: Seq<Seq<char>>, new: Seq<Seq<char>>) -> bool {
    match diff_walk(ops, old, new) {
        Some((o, n)) => o <= old.len() && n <= new.len() && old.skip(o) == new.skip(n),
        None => false,
    }
}

/// The bytes of a run of lines are the bytes of the text between the
/// starts of its first line and of the line after it.
proof fn lemma_lines_bytes(old: Seq<Seq<char>>, a: int, b: int)
    requires
        0 <= a <= b <= old.len(),
    ensures
        encode_utf8(old.flatten()).subrange(line_start_byte(old, a), line_start_byte(old, b)) == encode_utf8(old.subrange(a, b).flatten()),
        line_start_byte(old, a) == encode_utf8(old.take(a).flatten()).len(),
        line_start_byte(old, b) == line_start_byte(old, a) + encode_utf8(old.subrange(a, b).flatten()).len(),
{
    let x = old.take(a);
    let y = old.subrange(a, b);
    let z = old.skip(b);
    assert(old =~= x + y + z);
    assert(old.take(b) =~= x + y);
    lemma_flatten_concat(x + y, z);
    lemma_flatten_concat(x, y);
    lemma_encode_utf8_concat(x.flatten(), y.flatten());
    lemma_encode_utf8_concat(x.flatten() + y.flatten(), z.flatten());
    let ex = encode_utf8(x.flatten());
    let ey = encode_utf8(y.flatten());
    let ez = encode_utf8(z.flatten());
    assert(encode_utf8(old.flatten()) == ex + ey + ez);
    assert((ex + ey + ez).subrange(ex.len() as int, (ex.len() + ey.len()) as int) =~= ey);
}

/// The bytes of the first `b` new lines are those of the first `a` and of
/// the lines between.
proof fn lemma_prefix_bytes(new: Seq<Seq<char>>, a: int, b: int)
    requires
        0 <= a <= b <= new.len(),
    ensures
        encode_utf8(new.take(a).flatten()) + encode_utf8(new.subrange(a, b).flatten()) == encode_utf8(new.take(b).flatten()),
{
    assert(new.take(b) =~= new.take(a) + new.subrange(a, b));
    lemma_flatten_concat(new.take(a), new.subrange(a, b));
    lemma_encode_utf8_concat(new.take(a).flatten(), new.subrange(a, b).flatten());
}

/// Applying the edits of a diff's steps gives the new lines up to where the
/// diff has got to, and stops at the start of the old line it has got to.
proof fn lemma_diff_progress(ops: Seq<DiffOp>, old: Seq<Seq<char>>, new: Seq<Seq<char>>)
    requires
        diff_walk(ops, old, new) is Some,
        old.len() < u32::MAX,
    ensures
        apply_progress(diff_edits(ops, new), old, encode_utf8(old.flatten()), OffsetEncoding::Utf8) == Ok::<(Seq<u8>, int), ApplyEditError>((
            encode_utf8(new.take(diff_walk(ops, old, new).unwrap().1).flatten()),
            line_start_byte(old, diff_walk(ops, old, new).unwrap().0),
        )),
        0 <= diff_walk(ops, old, new).unwrap().0 <= old.len(),
        0 <= diff_walk(ops, old, new).unwrap().1 <= new.len(),
    decreases ops.len(),
{
    let bytes = encode_utf8(old.flatten());
    if ops.len() == 0 {
        assert(diff_edits(ops, new) =~= Seq::<TextEditModel>::empty());
        assert(new.take(0) =~= Seq::<Seq<char>>::empty());
        assert(old.take(0) =~= Seq::<Seq<char>>::empty());
        assert(encode_utf8(Seq::<char>::empty()) =~= Seq::<u8>::empty());
    } else {
        let d = ops.drop_last();
        lemma_diff_progress(d, old, new);
        let (o, n) = diff_walk(d, old, new).unwrap();
        let op = ops.last();
        let p = op_old(op);
        let e = op_old_end(op);
        let gap = p - o;
        assert(diff_edits(ops, new).drop_last() =~= diff_edits(d, new));
        assert(diff_edits(ops, new).last() == diff_edit(op, new));
        let edit = diff_edit(op, new);
        assert(edit.range.start == (Position { line: p as u32, character: 0 }));
        assert(edit.range.end == (Position { line: e as u32, character: 0 }));
        assert(character_byte_offset(old[p], 0, OffsetEncoding::Utf8) == Some(0int));
        assert(character_byte_offset(old[e], 0, OffsetEncoding::Utf8) == Some(0int));
        assert(edit_byte_range(edit, old, OffsetEncoding::Utf8) == Ok::<(int, int), ApplyEditError>((line_start_byte(old, p), line_start_byte(old, e))));
        lemma_lines_bytes(old, o, p);
        lemma_prefix_bytes(new, n, n + gap);
        let m = diff_walk(ops, old, new).unwrap().1;
        if m > n + gap {
            lemma_prefix_bytes(new, n + gap, m);
            assert(edit.new_text == new.subrange(n + gap, m).flatten());
        } else {
            assert(new.subrange(n + gap, m) =~= Seq::<Seq<char>>::empty());
            assert(edit.new_text =~= new.subrange(n + gap, m).flatten());
            assert(encode_utf8(Seq::<char>::empty()) =~= Seq::<u8>::empty());
        }
        assert(new.take(m) =~= new.take(n + gap) + new.subrange(n + gap, m));
        lemma_flatten_concat(new.take(n + gap), new.subrange(n + gap, m));
        lemma_encode_utf8_concat(new.take(n + gap).flatten(), new.subrange(n + gap, m).flatten());
    }
}

/// The edits that a line diff's steps make turn the old text into the new
/// one, when the diff describes the old lines turned into the new ones.
pub proof fn lemma_diff_edits_apply(ops: Seq<DiffOp>, old_text: Seq<char>, new_text: Seq<char>)
    requires
        diff_describes(ops, text_lines(old_text), text_lines(new_text)),
        text_lines(old_text).len() < u32::MAX,
    ensures
        apply_edits_to_text(diff_edits(ops, text_lines(new_text)), old_text, OffsetEncoding::Utf8) == Ok::<Seq<u8>, ApplyEditError>(encode_utf8(new_text)),
{
    let old = text_lines(old_text);
    let new = text_lines(new_text);
    lemma_text_lines_flatten(old_text);
    lemma_text_lines_flatten(new_text);
    lemma_diff_progress(ops, old, new);
    let (o, n) = diff_walk(ops, old, new).unwrap();
    lemma_lines_bytes(old, o, old.len() as int);
    assert(old.subrange(o, old.len() as int) =~= old.skip(o));
    assert(old.take(old.len() as int) =~= old);
    let bytes = encode_utf8(old_text);
    assert(line_start_byte(old, old.len() as int) == bytes.len());
    assert(new =~= new.take(n) + new.skip(n));
    lemma_flatten_concat(new.take(n), new.skip(n));
    lemma_encode_utf8_concat(new.take(n).flatten(), new.skip(n).flatten());
}

#[verifier::external_type_specification]
#[verifier::external_body]
pub struct ExUrl(Url);

/// The name of the client, where there is one.
pub open spec fn client_name(client: Option<ClientId>) -> Option<Seq<char>> {
    match client {
        Some(c) => Some(c.0@),
        None => None,
    }
}

/// The file path that `Url::to_file_path` gives for `uri`, as text
/// (`Path::to_str`): `None` where the URL names no file or the path is not
/// UTF-8. The path follows the rules of the platform the code runs on, so
/// nothing is stated of it.
#[verifier::external_body]
fn url_file_path(uri: &Url) -> (res: Option<String>) {
    uri.to_file_path().ok().and_then(|path| path.to_str().map(|p| p.to_string()))
}

/// The command that applies LSP edits to the buffer of the file that `uri`
/// names (or the current buffer, where there is no URI or it names no file):
/// as `apply_text_edits_to_buffer_file` for the path that the URI gives.
/// `None` for no edits.
pub fn apply_text_edits_to_buffer<F: Fn(&Rope, &Rope) -> Vec<DiffOp>>(
    client: &Option<ClientId>,
    uri: Option<Url>,
    text_edits: Vec<TextEdit>,
    text: &Rope,
    offset_encoding: OffsetEncoding,
    write_to_disk: bool,
    line_diff: &F,
) -> (res: Option<String>)
    requires
        forall|old: Rope, new: Rope| #[trigger] line_diff.requires((&old, &new)),
        text_edits@.len() > 0 && whole_buffer_text(client is Some, models(text_edits@), rope_lines(*text)) is None
            ==> edits_command_defined(models(text_edits@), rope_lines(*text), offset_encoding),
        forall|new: Rope, ops: Vec<DiffOp>| #[trigger] line_diff.ensures((text, &new), ops)
            ==> edits_command_defined(diff_edits(ops@, rope_lines(new)), rope_lines(*text), offset_encoding),
    ensures
        text_edits@.len() == 0 <==> res is None,
        exists|b: Option<Seq<char>>| {
            &&& (uri is None ==> b is None)
            &&& (text_edits@.len() > 0 && whole_buffer_text(client is Some, models(text_edits@), rope_lines(*text)) is None
                ==> res.unwrap()@ == #[trigger] buffer_command(
                    edits_command(models(text_edits@), rope_lines(*text), offset_encoding),
                    client_name(*client),
                    b,
                    write_to_disk,
                ))
            &&& (whole_buffer_text(client is Some, models(text_edits@), rope_lines(*text)) matches Some(t) ==> exists|new: Rope, ops: Vec<DiffOp>|
                rope_chars(new) == t && #[trigger] line_diff.ensures((text, &new), ops)
                    && res.unwrap()@ == buffer_command(
                        edits_command(diff_edits(ops@, rope_lines(new)), rope_lines(*text), offset_encoding),
                        client_name(*client),
                        b,
                        write_to_disk,
                    ))
        },
{
    let path = match &uri {
        Some(u) => url_file_path(u),
        None => None,
    };
    let buffile = match &path {
        Some(p) => Some(p.as_str()),
        None => None,
    };
    let ghost b = match buffile { Some(p) => Some(p@), None => None };
    let res = apply_text_edits_to_buffer_file(client, buffile, text_edits, text, offset_encoding, write_to_disk, line_diff);
    proof {
        let cl = client_name(*client);
        let _ = buffer_command(edits_command(models(text_edits@), rope_lines(*text), offset_encoding), cl, b, write_to_disk);
    }
    res
}


/// The command for a list of edits, as `lsp_text_edits_to_kakoune` gives
/// it (see its contract): `r` is a command it may give for these edits.
pub open spec fn is_edits_command<F: Fn(&Rope, &Rope) -> Vec<DiffOp>>(
    r: Seq<char>,
    line_diff: F,
    text: Rope,
    edits: Seq<TextEditModel>,
    enc: OffsetEncoding,
    has_client: bool,
) -> bool {
    match whole_buffer_text(has_client, edits, rope_lines(text)) {
        None => r == edits_command(edits, rope_lines(text), enc),
        Some(t) => exists|new: Rope, ops: Vec<DiffOp>|
            rope_chars(new) == t && #[trigger] line_diff.ensures((&text, &new), ops)
                && r == edits_command(diff_edits(ops@, rope_lines(new)), rope_lines(text), enc),
    }
}

/// The order in which edits come matters only among edits of the same
/// range, also where an edit replaces the whole buffer, provided the line
/// diff gives one answer for one pair of texts.
pub proof fn lemma_edit_order_irrelevant_with_diff<F: Fn(&Rope, &Rope) -> Vec<DiffOp>>(
    line_diff: F,
    text: Rope,
    s1: Seq<TextEditModel>,
    s2: Seq<TextEditModel>,
    enc: OffsetEncoding,
    has_client: bool,
    r1: Seq<char>,
    r2: Seq<char>,
)
    requires
        forall|r: Range| #[trigger] edits_with_range(s1, r) == edits_with_range(s2, r),
        forall|n1: Rope, n2: Rope, o1: Vec<DiffOp>, o2: Vec<DiffOp>|
            rope_chars(n1) == rope_chars(n2) && #[trigger] line_diff.ensures((&text, &n1), o1)
                && #[trigger] line_diff.ensures((&text, &n2), o2) ==> o1@ == o2@,
        is_edits_command(r1, line_diff, text, s1, enc, has_client),
        is_edits_command(r2, line_diff, text, s2, enc, has_client),
    ensures
        r1 == r2,
{
    lemma_edit_order_irrelevant(s1, s2, rope_lines(text), enc, has_client);
    match whole_buffer_text(has_client, s1, rope_lines(text)) {
        None => {},
        Some(t) => {
            let (n1, o1) = choose|new: Rope, ops: Vec<DiffOp>|
                rope_chars(new) == t && #[trigger] line_diff.ensures((&text, &new), ops)
                    && r1 == edits_command(diff_edits(ops@, rope_lines(new)), rope_lines(text), enc);
            let (n2, o2) = choose|new: Rope, ops: Vec<DiffOp>|
                rope_chars(new) == t && #[trigger] line_diff.ensures((&text, &new), ops)
                    && r2 == edits_command(diff_edits(ops@, rope_lines(new)), rope_lines(text), enc);
            assert(o1@ == o2@);
            assert(rope_lines(n1) == rope_lines(n2));
        },
    }
}

} // verus!
