//! Inlay hints: the hints shown within lines, and which of them to apply.

use vstd::prelude::*;
use ropey::Rope;
use crate::diagnostics::{int_decimal, push_int};
use crate::markup::{escape_kakoune_markup, markup_escape_spec};
use crate::position::{lsp_position_convertible, lsp_position_to_kakoune, position_defined, position_to_kakoune};
use crate::rope::rope_lines;
use crate::strings::{push_char, push_str};
use crate::text_edit::join_spaced;
use crate::types::{kakoune_position_text, KakounePosition, OffsetEncoding, Position, TextEdit, TextEditModel};
use crate::util::{editor_quote, editor_quote_spec, escape_tuple_element, escape_tuple_element_spec};

verus! {

/// The parameters of an inlay hints request.
#[derive(Clone, Copy, Debug, PartialEq, Eq, Structural)]
pub struct InlayHintsOptions {
    pub buf_line_count: u32,
}

impl Default for InlayHintsOptions {
    /// Options for an empty buffer.
    fn default() -> (res: InlayHintsOptions)
        ensures
            res.buf_line_count == 0,
    {
        InlayHintsOptions { buf_line_count: 0 }
    }
}

/// Which inlay hints to apply.
#[derive(Clone, Copy, Debug, PartialEq, Eq, Structural)]
pub enum InlayHintApplyKind {
    /// The closest hint on the same line as each cursor.
    Nearest,
    /// Every hint whose position overlaps a selection.
    Selected,
}

/// The parameters of a request to apply inlay hints.
#[derive(Clone, Debug)]
pub struct InlayHintApplyParams {
    pub selections_desc: Vec<String>,
    pub kind: InlayHintApplyKind,
}


/// An inlay hint: where it stands, its label (in parts, shown one after the
/// other), whether it is padded on either side, and the edits that apply it.
pub struct InlayHint {
    pub position: Position,
    pub label: Vec<String>,
    pub padding_left: bool,
    pub padding_right: bool,
    pub text_edits: Vec<TextEdit>,
}

/// The parts of a label, one after the other.
pub open spec fn joined(parts: Seq<Seq<char>>) -> Seq<char>
    decreases parts.len(),
{
    if parts.len() == 0 {
        Seq::empty()
    } else {
        joined(parts.drop_last()) + parts.last()
    }
}

/// The text of a label.
pub open spec fn label_text(label: Seq<String>) -> Seq<char> {
    joined(label.map_values(|s: String| s@))
}

/// A range-specs element of a hint: its position as an empty range, the
/// padding, and the label in the hint face (escaped for markup and for a tuple
/// element), as one quoted word.
pub open spec fn hint_entry(h: InlayHint, enc: OffsetEncoding, lines: Seq<Seq<char>>) -> Seq<char> {
    editor_quote_spec(
        kakoune_position_text(position_to_kakoune(h.position, lines, enc)) + "+0|"@ + (if h.padding_left {
            " "@
        } else {
            Seq::empty()
        }) + "{InlayHint}"@ + escape_tuple_element_spec(markup_escape_spec(label_text(h.label@))) + (if h.padding_right {
            "{Default} "@
        } else {
            Seq::empty()
        }),
    )
}

/// The command that shows a buffer's inlay hints, for its version.
pub open spec fn inlay_hints_command(
    buffile: Seq<char>,
    version: i32,
    hints: Seq<InlayHint>,
    encs: Seq<OffsetEncoding>,
    lines: Seq<Seq<char>>,
) -> Seq<char> {
    "evaluate-commands -buffer "@ + editor_quote_spec(buffile) + " -verbatim -- set-option buffer lsp_inlay_hints "@
        + int_decimal(version as int) + seq![' '] + join_spaced(
        Seq::new(hints.len(), |k: int| hint_entry(hints[k], encs[k], lines)),
    )
}

/// Whether a buffer's inlay hints can be shown: one offset encoding for each
/// (that of its server), and every position convertible to Kakoune's.
pub open spec fn hints_showable(hints: Seq<InlayHint>, encs: Seq<OffsetEncoding>, lines: Seq<Seq<char>>) -> bool {
    &&& encs.len() == hints.len()
    &&& forall|k: int| 0 <= k < hints.len() ==> position_defined(#[trigger] hints[k].position, lines, encs[k])
}

/// Whether a buffer's inlay hints can be shown; see `hints_showable`.
pub fn inlay_hints_showable(hints: &Vec<InlayHint>, encodings: &Vec<OffsetEncoding>, text: &Rope) -> (res: bool)
    ensures
        res == hints_showable(hints@, encodings@, rope_lines(*text)),
{
    if hints.len() != encodings.len() {
        return false;
    }
    let mut k: usize = 0;
    while k < hints.len()
        invariant
            k <= hints.len(),
            hints.len() == encodings.len(),
            forall|j: int| 0 <= j < k ==> position_defined(#[trigger] hints@[j].position, rope_lines(*text), encodings@[j]),
        decreases hints.len() - k,
    {
        if !lsp_position_convertible(&hints[k].position, text, encodings[k]) {
            return false;
        }
        k = k + 1;
    }
    true
}

proof fn lemma_join_spaced_push(parts: Seq<Seq<char>>, x: Seq<char>)
    ensures
        join_spaced(parts.push(x)) == if parts.len() == 0 { x } else { join_spaced(parts) + seq![' '] + x },
{
    assert(parts.push(x).drop_last() =~= parts);
}

/// The text of a label; see `label_text`.
fn push_label(out: &mut String, label: &Vec<String>)
    ensures
        final(out)@ == old(out)@ + label_text(label@),
{
    let ghost start = out@;
    let mut i: usize = 0;
    while i < label.len()
        invariant
            i <= label.len(),
            out@ == start + joined(label@.take(i as int).map_values(|s: String| s@)),
        decreases label.len() - i,
    {
        proof {
            assert(label@.take(i + 1).map_values(|s: String| s@).drop_last() =~= label@.take(i as int).map_values(
                |s: String| s@,
            ));
        }
        push_str(out, label[i].as_str());
        i = i + 1;
    }
    assert(label@.take(i as int) =~= label@);
}

/// A hint's range-specs element; see `hint_entry`.
fn hint_entry_text(h: &InlayHint, enc: OffsetEncoding, text: &Rope) -> (res: String)
    requires
        position_defined(h.position, rope_lines(*text), enc),
    ensures
        res@ == hint_entry(*h, enc, rope_lines(*text)),
{
    let p = lsp_position_to_kakoune(&h.position, text, enc);
    let mut label = String::new();
    push_label(&mut label, &h.label);
    let m = escape_kakoune_markup(label.as_str());
    let t = escape_tuple_element(m.as_str());
    let mut word = String::new();
    p.push_to(&mut word);
    push_str(&mut word, "+0|");
    if h.padding_left {
        push_str(&mut word, " ");
    }
    push_str(&mut word, "{InlayHint}");
    push_str(&mut word, t.as_str());
    if h.padding_right {
        push_str(&mut word, "{Default} ");
    }
    let ghost inner = kakoune_position_text(position_to_kakoune(h.position, rope_lines(*text), enc)) + "+0|"@ + (
    if h.padding_left {
        " "@
    } else {
        Seq::empty()
    }) + "{InlayHint}"@ + escape_tuple_element_spec(markup_escape_spec(label_text(h.label@))) + (if h.padding_right {
        "{Default} "@
    } else {
        Seq::empty()
    });
    assert(word@ =~= inner);
    editor_quote(word.as_str())
}

/// The command that shows a buffer's inlay hints; see `inlay_hints_command`.
pub fn inlay_hints_response(
    buffile: &str,
    version: i32,
    hints: &Vec<InlayHint>,
    encodings: &Vec<OffsetEncoding>,
    text: &Rope,
) -> (res: String)
    requires
        hints_showable(hints@, encodings@, rope_lines(*text)),
    ensures
        res@ == inlay_hints_command(buffile@, version, hints@, encodings@, rope_lines(*text)),
{
    let ghost lines = rope_lines(*text);
    let ghost entries = Seq::new(hints@.len(), |k: int| hint_entry(hints@[k], encodings@[k], lines));
    let mut ranges = String::new();
    let mut k: usize = 0;
    while k < hints.len()
        invariant
            k <= hints.len(),
            lines == rope_lines(*text),
            hints_showable(hints@, encodings@, lines),
            entries == Seq::new(hints@.len(), |k: int| hint_entry(hints@[k], encodings@[k], lines)),
            ranges@ == join_spaced(entries.take(k as int)),
        decreases hints.len() - k,
    {
        proof {
            assert(entries.take(k + 1).drop_last() =~= entries.take(k as int));
            lemma_join_spaced_push(entries.take(k as int), entries[k as int]);
            assert(position_defined(hints@[k as int].position, lines, encodings@[k as int]));
        }
        let e = hint_entry_text(&hints[k], encodings[k], text);
        if k > 0 {
            push_char(&mut ranges, ' ');
        }
        push_str(&mut ranges, e.as_str());
        k = k + 1;
    }
    assert(entries.take(k as int) =~= entries);
    let mut out = String::new();
    push_str(&mut out, "evaluate-commands -buffer ");
    let q = editor_quote(buffile);
    push_str(&mut out, q.as_str());
    push_str(&mut out, " -verbatim -- set-option buffer lsp_inlay_hints ");
    push_int(&mut out, version);
    push_char(&mut out, ' ');
    push_str(&mut out, ranges.as_str());
    assert(out@ =~= inlay_hints_command(buffile@, version, hints@, encodings@, lines));
    out
}

// ---------------------------------------------------------------------------
// Choosing the hint to apply

/// How far a column is from another.
pub open spec fn column_distance(a: u32, b: u32) -> int {
    if a >= b { a - b } else { b - a }
}

/// Whether hint `k` (at the Kakoune positions `ps`) is the nearest to the
/// cursor on its line: on the cursor's line, no hint there nearer, and none
/// as near before it.
pub open spec fn is_nearest(ps: Seq<KakounePosition>, cursor: KakounePosition, k: int) -> bool {
    &&& 0 <= k < ps.len()
    &&& ps[k].line == cursor.line
    &&& forall|j: int|
        0 <= j < ps.len() && (#[trigger] ps[j]).line == cursor.line ==> column_distance(ps[k].column, cursor.column)
            <= column_distance(ps[j].column, cursor.column)
    &&& forall|j: int|
        0 <= j < k && (#[trigger] ps[j]).line == cursor.line ==> column_distance(ps[k].column, cursor.column)
            < column_distance(ps[j].column, cursor.column)
}

/// The hint nearest to the cursor on its line, the first of those equally
/// near, if there is a hint on that line; see `is_nearest`.
pub fn nearest_hint(positions: &Vec<KakounePosition>, cursor: KakounePosition) -> (res: Option<usize>)
    ensures
        match res {
            Some(k) => is_nearest(positions@, cursor, k as int),
            None => forall|j: int| 0 <= j < positions.len() ==> (#[trigger] positions@[j]).line != cursor.line,
        },
{
    let mut best: Option<usize> = None;
    let mut best_distance: u32 = 0;
    let mut i: usize = 0;
    while i < positions.len()
        invariant
            i <= positions.len(),
            match best {
                Some(k) => is_nearest(positions@.take(i as int), cursor, k as int) && best_distance == column_distance(
                    positions@[k as int].column,
                    cursor.column,
                ),
                None => forall|j: int| 0 <= j < i ==> (#[trigger] positions@[j]).line != cursor.line,
            },
        decreases positions.len() - i,
    {
        let p = positions[i];
        if p.line == cursor.line {
            let d = if p.column >= cursor.column { p.column - cursor.column } else { cursor.column - p.column };
            let better = match best {
                Some(_) => d < best_distance,
                None => true,
            };
            if better {
                best = Some(i);
                best_distance = d;
            }
        }
        proof {
            let pre = positions@.take(i as int);
            let next = positions@.take(i + 1);
            assert forall|j: int| 0 <= j < i implies next[j] == pre[j] by {}
            assert(next[i as int] == p);
        }
        i = i + 1;
    }
    assert(positions@.take(i as int) =~= positions@);
    best
}


// ---------------------------------------------------------------------------
// Gathering the edits to apply

/// The edits of a hint, as values.
pub open spec fn hint_edits(h: InlayHint) -> Seq<TextEditModel> {
    h.text_edits@.map_values(|e: TextEdit| e@)
}

/// The servers of the chosen hints that have edits, each once, in the order
/// in which they first come.
pub open spec fn edit_servers(hints: Seq<InlayHint>, servers: Seq<usize>, chosen: Seq<usize>) -> Seq<usize>
    decreases chosen.len(),
{
    if chosen.len() == 0 {
        Seq::empty()
    } else {
        let rest = edit_servers(hints, servers, chosen.drop_last());
        let k = chosen.last() as int;
        if hints[k].text_edits.len() > 0 && !rest.contains(servers[k]) {
            rest.push(servers[k])
        } else {
            rest
        }
    }
}

/// The edits of those chosen hints that come from server `s`, in order.
pub open spec fn server_edits(hints: Seq<InlayHint>, servers: Seq<usize>, chosen: Seq<usize>, s: usize) -> Seq<TextEditModel>
    decreases chosen.len(),
{
    if chosen.len() == 0 {
        Seq::empty()
    } else {
        let rest = server_edits(hints, servers, chosen.drop_last(), s);
        let k = chosen.last() as int;
        if servers[k] == s {
            rest + hint_edits(hints[k])
        } else {
            rest
        }
    }
}

/// The edits of the chosen hints, by server: each server (see
/// `edit_servers`) with the edits of its chosen hints.
pub open spec fn edits_by_server(hints: Seq<InlayHint>, servers: Seq<usize>, chosen: Seq<usize>) -> Seq<(usize, Seq<TextEditModel>)> {
    edit_servers(hints, servers, chosen).map_values(|s: usize| (s, server_edits(hints, servers, chosen, s)))
}

/// A group of edits, as values.
pub open spec fn group_view(g: (usize, Vec<TextEdit>)) -> (usize, Seq<TextEditModel>) {
    (g.0, g.1@.map_values(|e: TextEdit| e@))
}

/// Appends copies of a hint's edits.
fn push_edits(out: &mut Vec<TextEdit>, edits: &Vec<TextEdit>)
    ensures
        final(out)@.map_values(|e: TextEdit| e@) == old(out)@.map_values(|e: TextEdit| e@) + edits@.map_values(
            |e: TextEdit| e@,
        ),
{
    let ghost start = out@.map_values(|e: TextEdit| e@);
    let mut i: usize = 0;
    while i < edits.len()
        invariant
            i <= edits.len(),
            out@.map_values(|e: TextEdit| e@) == start + edits@.take(i as int).map_values(|e: TextEdit| e@),
        decreases edits.len() - i,
    {
        let ghost before = out@;
        let e = edits[i].copy();
        out.push(e);
        proof {
            assert(out@.map_values(|e: TextEdit| e@) =~= before.map_values(|e: TextEdit| e@).push(e@));
            assert(edits@.take(i + 1).map_values(|e: TextEdit| e@) =~= edits@.take(i as int).map_values(
                |e: TextEdit| e@,
            ).push(edits@[i as int]@));
        }
        i = i + 1;
    }
    assert(edits@.take(i as int) =~= edits@);
}

/// The edits of the chosen hints (indices into `hints`, whose servers are
/// `servers`), by server; see `edits_by_server`. Empty when no chosen hint
/// has edits.
pub fn inlay_hint_edits(hints: &Vec<InlayHint>, servers: &Vec<usize>, chosen: &Vec<usize>) -> (res: Vec<(usize, Vec<TextEdit>)>)
    requires
        servers.len() == hints.len(),
        forall|t: int| 0 <= t < chosen.len() ==> (#[trigger] chosen@[t]) < hints.len(),
    ensures
        res@.map_values(|g: (usize, Vec<TextEdit>)| group_view(g)) == edits_by_server(hints@, servers@, chosen@),
{
    // The servers, in the order in which they first come.
    let mut order: Vec<usize> = Vec::new();
    let mut t: usize = 0;
    while t < chosen.len()
        invariant
            t <= chosen.len(),
            servers.len() == hints.len(),
            forall|t: int| 0 <= t < chosen.len() ==> (#[trigger] chosen@[t]) < hints.len(),
            order@ == edit_servers(hints@, servers@, chosen@.take(t as int)),
        decreases chosen.len() - t,
    {
        let k = chosen[t];
        proof {
            assert(chosen@.take(t + 1).drop_last() =~= chosen@.take(t as int));
        }
        if hints[k].text_edits.len() > 0 {
            let s = servers[k];
            let mut seen = false;
            let mut j: usize = 0;
            while j < order.len()
                invariant
                    j <= order.len(),
                    seen == order@.take(j as int).contains(s),
                decreases order.len() - j,
            {
                proof {
                    let a = order@.take(j as int);
                    let b = order@.take(j + 1);
                    assert(b =~= a.push(order@[j as int]));
                    if b.contains(s) && order@[j as int] != s {
                        let x = choose|x: int| 0 <= x < b.len() && b[x] == s;
                        assert(a[x] == s);
                    }
                    if a.contains(s) {
                        let x = choose|x: int| 0 <= x < a.len() && a[x] == s;
                        assert(b[x] == s);
                    }
                    if order@[j as int] == s {
                        assert(b[j as int] == s);
                    }
                }
                if order[j] == s {
                    seen = true;
                }
                j = j + 1;
            }
            assert(order@.take(j as int) =~= order@);
            if !seen {
                order.push(s);
            }
        }
        t = t + 1;
    }
    assert(chosen@.take(t as int) =~= chosen@);
    let ghost servers_in_order = order@;
    let mut groups: Vec<(usize, Vec<TextEdit>)> = Vec::new();
    let mut g: usize = 0;
    while g < order.len()
        invariant
            g <= order.len(),
            order@ == servers_in_order,
            servers_in_order == edit_servers(hints@, servers@, chosen@),
            servers.len() == hints.len(),
            forall|t: int| 0 <= t < chosen.len() ==> (#[trigger] chosen@[t]) < hints.len(),
            groups@.map_values(|g: (usize, Vec<TextEdit>)| group_view(g)) == servers_in_order.take(g as int).map_values(
                |s: usize| (s, server_edits(hints@, servers@, chosen@, s)),
            ),
        decreases order.len() - g,
    {
        let s = order[g];
        let mut edits: Vec<TextEdit> = Vec::new();
        let mut t: usize = 0;
        while t < chosen.len()
            invariant
                t <= chosen.len(),
                servers.len() == hints.len(),
                forall|t: int| 0 <= t < chosen.len() ==> (#[trigger] chosen@[t]) < hints.len(),
                edits@.map_values(|e: TextEdit| e@) == server_edits(hints@, servers@, chosen@.take(t as int), s),
            decreases chosen.len() - t,
        {
            let k = chosen[t];
            proof {
                assert(chosen@.take(t + 1).drop_last() =~= chosen@.take(t as int));
            }
            if servers[k] == s {
                push_edits(&mut edits, &hints[k].text_edits);
            }
            t = t + 1;
        }
        assert(chosen@.take(t as int) =~= chosen@);
        let ghost before = groups@;
        groups.push((s, edits));
        proof {
            assert(groups@.map_values(|g: (usize, Vec<TextEdit>)| group_view(g)) =~= before.map_values(
                |g: (usize, Vec<TextEdit>)| group_view(g),
            ).push((s, server_edits(hints@, servers@, chosen@, s))));
            assert(servers_in_order.take(g + 1).map_values(|s: usize| (s, server_edits(hints@, servers@, chosen@, s)))
                =~= servers_in_order.take(g as int).map_values(|s: usize| (s, server_edits(hints@, servers@, chosen@, s))).push(
                (s, server_edits(hints@, servers@, chosen@, s)),
            ));
        }
        g = g + 1;
    }
    assert(servers_in_order.take(g as int) =~= servers_in_order);
    groups
}

} // verus!
