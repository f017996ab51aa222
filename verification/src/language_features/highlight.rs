//! Document highlights: the references to the symbol under the cursor,
//! highlighted, and selected when asked for by hand.

use vstd::prelude::*;
use ropey::Rope;
use crate::diagnostics::{int_decimal, push_int};
use crate::position::{lsp_range_convertible, lsp_range_to_kakoune, range_defined, range_to_kakoune};
use crate::rope::rope_lines;
use crate::strings::{push_char, push_str};
use crate::text_edit::join_spaced;
use crate::types::{kakoune_le, kakoune_range_text, KakounePosition, KakouneRange, OffsetEncoding, Range};
use crate::util::{editor_quote, editor_quote_spec};

verus! {

/// A reference to highlight: where it is, and whether it writes the symbol.
#[derive(Clone, Copy, Debug, PartialEq, Eq, Structural)]
pub struct DocumentHighlight {
    pub range: Range,
    pub write: bool,
}

/// The highlights' ranges in Kakoune's terms.
pub open spec fn highlight_ranges(hs: Seq<DocumentHighlight>, lines: Seq<Seq<char>>, enc: OffsetEncoding) -> Seq<KakouneRange> {
    hs.map_values(|h: DocumentHighlight| range_to_kakoune(h.range, lines, enc))
}

/// A range-specs element: the range and the face of a read or a write.
pub open spec fn highlight_spec(h: DocumentHighlight, lines: Seq<Seq<char>>, enc: OffsetEncoding) -> Seq<char> {
    kakoune_range_text(range_to_kakoune(h.range, lines, enc)) + (if h.write { "|ReferenceBind"@ } else { "|Reference"@ })
}

/// The option that highlights the references, for the buffer's version.
pub open spec fn references_option(version: i32, hs: Seq<DocumentHighlight>, lines: Seq<Seq<char>>, enc: OffsetEncoding) -> Seq<char> {
    "set-option window lsp_references "@ + int_decimal(version as int) + seq![' '] + join_spaced(
        hs.map_values(|h: DocumentHighlight| highlight_spec(h, lines, enc)),
    )
}

/// Whether a range holds a position.
pub open spec fn range_holds(r: KakouneRange, p: KakounePosition) -> bool {
    kakoune_le(r.start, p) && kakoune_le(p, r.end)
}

/// The first of the ranges that holds the cursor, if any.
pub open spec fn first_holding(ranges: Seq<KakouneRange>, cursor: KakounePosition) -> Option<int>
    decreases ranges.len(),
{
    if ranges.len() == 0 {
        None
    } else {
        match first_holding(ranges.drop_last(), cursor) {
            Some(k) => Some(k),
            None => if range_holds(ranges.last(), cursor) {
                Some(ranges.len() - 1)
            } else {
                None
            },
        }
    }
}

/// A command that also selects the ranges, with the one that holds the
/// cursor as the main selection; the command alone when none holds it.
pub open spec fn select_ranges_and_text(command: Seq<char>, ranges: Seq<KakouneRange>, cursor: KakounePosition) -> Seq<char> {
    match first_holding(ranges, cursor) {
        Some(k) => "evaluate-commands "@ + editor_quote_spec(
            "select "@ + kakoune_range_text(ranges[k]) + seq![' '] + join_spaced(
                ranges.map_values(|r: KakouneRange| kakoune_range_text(r)),
            ) + seq!['\n'] + command,
        ),
        None => command,
    }
}

/// What highlights the references: the option, and, when asked for by hand
/// (not by a hook), the selection of the references.
pub open spec fn document_highlight_command(
    version: i32,
    hook: bool,
    hs: Seq<DocumentHighlight>,
    cursor: KakounePosition,
    lines: Seq<Seq<char>>,
    enc: OffsetEncoding,
) -> Seq<char> {
    let command = references_option(version, hs, lines, enc);
    if hook {
        command
    } else {
        select_ranges_and_text(command, highlight_ranges(hs, lines, enc), cursor)
    }
}

proof fn lemma_join_spaced_push(parts: Seq<Seq<char>>, x: Seq<char>)
    ensures
        join_spaced(parts.push(x)) == if parts.len() == 0 { x } else { join_spaced(parts) + seq![' '] + x },
{
    assert(parts.push(x).drop_last() =~= parts);
}

/// A command that also selects the ranges; see `select_ranges_and_text`.
pub fn select_ranges_and(command: String, ranges: &Vec<KakouneRange>, main_cursor: KakounePosition) -> (res: String)
    ensures
        res@ == select_ranges_and_text(command@, ranges@, main_cursor),
{
    let mut main: Option<usize> = None;
    let mut texts = String::new();
    let mut k: usize = 0;
    while k < ranges.len()
        invariant
            k <= ranges.len(),
            main == match first_holding(ranges@.take(k as int), main_cursor) {
                Some(m) => Some(m as usize),
                None => None::<usize>,
            },
            match first_holding(ranges@.take(k as int), main_cursor) {
                Some(m) => 0 <= m < k,
                None => true,
            },
            texts@ == join_spaced(ranges@.take(k as int).map_values(|r: KakouneRange| kakoune_range_text(r))),
        decreases ranges.len() - k,
    {
        let r = ranges[k];
        proof {
            let next = ranges@.take(k + 1);
            assert(next.drop_last() =~= ranges@.take(k as int));
            assert(next.map_values(|r: KakouneRange| kakoune_range_text(r)) =~= ranges@.take(k as int).map_values(
                |r: KakouneRange| kakoune_range_text(r),
            ).push(kakoune_range_text(r)));
            lemma_join_spaced_push(
                ranges@.take(k as int).map_values(|r: KakouneRange| kakoune_range_text(r)),
                kakoune_range_text(r),
            );
        }
        if main.is_none() {
            let holds = (r.start.line < main_cursor.line || (r.start.line == main_cursor.line && r.start.column
                <= main_cursor.column)) && (main_cursor.line < r.end.line || (main_cursor.line == r.end.line
                && main_cursor.column <= r.end.column));
            if holds {
                main = Some(k);
            }
        }
        if k > 0 {
            push_char(&mut texts, ' ');
        }
        r.push_to(&mut texts);
        k = k + 1;
    }
    assert(ranges@.take(k as int) =~= ranges@);
    match main {
        Some(m) => {
            let mut inner = String::new();
            push_str(&mut inner, "select ");
            ranges[m].push_to(&mut inner);
            push_char(&mut inner, ' ');
            push_str(&mut inner, texts.as_str());
            push_char(&mut inner, '\n');
            push_str(&mut inner, command.as_str());
            assert(inner@ =~= "select "@ + kakoune_range_text(ranges@[m as int]) + seq![' '] + join_spaced(
                ranges@.map_values(|r: KakouneRange| kakoune_range_text(r)),
            ) + seq!['\n'] + command@);
            let mut out = String::new();
            push_str(&mut out, "evaluate-commands ");
            let q = editor_quote(inner.as_str());
            push_str(&mut out, q.as_str());
            assert(out@ =~= select_ranges_and_text(command@, ranges@, main_cursor));
            out
        },
        None => command,
    }
}

/// Whether every highlight's range can be converted to Kakoune's.
pub open spec fn highlights_convertible(hs: Seq<DocumentHighlight>, lines: Seq<Seq<char>>, enc: OffsetEncoding) -> bool {
    forall|k: int| 0 <= k < hs.len() ==> range_defined(#[trigger] hs[k].range, lines, enc)
}

/// Whether every highlight's range can be converted; see
/// `highlights_convertible`.
pub fn document_highlights_convertible(highlights: &Vec<DocumentHighlight>, text: &Rope, offset_encoding: OffsetEncoding) -> (res: bool)
    ensures
        res == highlights_convertible(highlights@, rope_lines(*text), offset_encoding),
{
    let mut k: usize = 0;
    while k < highlights.len()
        invariant
            k <= highlights.len(),
            forall|j: int| 0 <= j < k ==> range_defined(#[trigger] highlights@[j].range, rope_lines(*text), offset_encoding),
        decreases highlights.len() - k,
    {
        if !lsp_range_convertible(&highlights[k].range, text, offset_encoding) {
            return false;
        }
        k = k + 1;
    }
    true
}

/// What highlights the references; see `document_highlight_command`.
pub fn editor_document_highlight(
    version: i32,
    hook: bool,
    highlights: &Vec<DocumentHighlight>,
    main_cursor: KakounePosition,
    text: &Rope,
    offset_encoding: OffsetEncoding,
) -> (res: String)
    requires
        highlights_convertible(highlights@, rope_lines(*text), offset_encoding),
    ensures
        res@ == document_highlight_command(version, hook, highlights@, main_cursor, rope_lines(*text), offset_encoding),
{
    let ghost lines = rope_lines(*text);
    let mut specs = String::new();
    let mut ranges: Vec<KakouneRange> = Vec::new();
    let mut k: usize = 0;
    while k < highlights.len()
        invariant
            k <= highlights.len(),
            lines == rope_lines(*text),
            highlights_convertible(highlights@, lines, offset_encoding),
            ranges@ == highlight_ranges(highlights@.take(k as int), lines, offset_encoding),
            specs@ == join_spaced(highlights@.take(k as int).map_values(|h: DocumentHighlight| highlight_spec(h, lines, offset_encoding))),
        decreases highlights.len() - k,
    {
        let h = highlights[k];
        proof {
            assert(range_defined(highlights@[k as int].range, lines, offset_encoding));
            let next = highlights@.take(k + 1);
            assert(next.drop_last() =~= highlights@.take(k as int));
            assert(next.map_values(|h: DocumentHighlight| highlight_spec(h, lines, offset_encoding)) =~= highlights@.take(
                k as int,
            ).map_values(|h: DocumentHighlight| highlight_spec(h, lines, offset_encoding)).push(highlight_spec(h, lines, offset_encoding)));
            lemma_join_spaced_push(
                highlights@.take(k as int).map_values(|h: DocumentHighlight| highlight_spec(h, lines, offset_encoding)),
                highlight_spec(h, lines, offset_encoding),
            );
        }
        let r = lsp_range_to_kakoune(&h.range, text, offset_encoding);
        if k > 0 {
            push_char(&mut specs, ' ');
        }
        r.push_to(&mut specs);
        if h.write {
            push_str(&mut specs, "|ReferenceBind");
        } else {
            push_str(&mut specs, "|Reference");
        }
        ranges.push(r);
        proof {
            assert(highlight_ranges(highlights@.take(k + 1), lines, offset_encoding) =~= highlight_ranges(
                highlights@.take(k as int),
                lines,
                offset_encoding,
            ).push(r));
        }
        k = k + 1;
    }
    assert(highlights@.take(k as int) =~= highlights@);
    let mut command = String::new();
    push_str(&mut command, "set-option window lsp_references ");
    push_int(&mut command, version);
    push_char(&mut command, ' ');
    push_str(&mut command, specs.as_str());
    assert(command@ =~= references_option(version, highlights@, lines, offset_encoding));
    if hook {
        command
    } else {
        select_ranges_and(command, &ranges, main_cursor)
    }
}

} // verus!
