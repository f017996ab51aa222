//! What Kakoune shows of a buffer's diagnostics: the ranges they highlight,
//! the flags in the gutter, the counts by severity, and the first line of the
//! most severe message of each line, shown at its end.

use vstd::prelude::*;
use ropey::Rope;
use crate::diagnostics::{
    count_severity, diagnostic_flags, flag_texts, gather_line_flags, int_decimal, merge_flags, push_int, Diagnostic,
    DiagnosticSeverity, SeverityClass,
};
use crate::language_features::document_symbol::{first_line, push_first_line};
use crate::markup::{escape_kakoune_markup, markup_escape_spec};
use crate::position::{lsp_range_convertible, lsp_range_to_kakoune, range_defined, range_to_kakoune};
use crate::rope::rope_lines;
use crate::strings::{decimal, push_char, push_decimal, push_str};
use crate::text_edit::join_spaced;
use crate::types::{kakoune_position_text, KakouneRange, OffsetEncoding};
use crate::util::{
    editor_escape_double_quotes, editor_escape_double_quotes_spec, editor_quote, editor_quote_spec,
    escape_tuple_element, escape_tuple_element_spec, push_replaced, replace_char,
};

verus! {

// ---------------------------------------------------------------------------
// Storing what a server published

/// The stored diagnostics of servers other than `server`, in their order.
pub open spec fn of_other_servers<T>(stored: Seq<(usize, T)>, server: usize) -> Seq<(usize, T)>
    decreases stored.len(),
{
    if stored.len() == 0 {
        Seq::empty()
    } else {
        let rest = of_other_servers(stored.drop_last(), server);
        if stored.last().0 != server {
            rest.push(stored.last())
        } else {
            rest
        }
    }
}

/// The stored diagnostics of `server`, in their order.
pub open spec fn of_server<T>(stored: Seq<(usize, T)>, server: usize) -> Seq<(usize, T)>
    decreases stored.len(),
{
    if stored.len() == 0 {
        Seq::empty()
    } else {
        let rest = of_server(stored.drop_last(), server);
        if stored.last().0 == server {
            rest.push(stored.last())
        } else {
            rest
        }
    }
}

/// New diagnostics of `server`, tagged with it.
pub open spec fn tagged<T>(new: Seq<T>, server: usize) -> Seq<(usize, T)> {
    new.map_values(|d: T| (server, d))
}

/// A file's diagnostics once `server` published `new` ones for it: those of
/// the other servers, then the new ones.
pub open spec fn stored_after<T>(stored: Seq<(usize, T)>, server: usize, new: Seq<T>) -> Seq<(usize, T)> {
    of_other_servers(stored, server) + tagged(new, server)
}

/// Replaces a server's diagnostics of a file by those it published; see
/// `stored_after`.
pub fn store_diagnostics<T>(stored: Vec<(usize, T)>, server_id: usize, new_diagnostics: Vec<T>) -> (res: Vec<(usize, T)>)
    ensures
        res@ == stored_after(stored@, server_id, new_diagnostics@),
{
    let ghost all = stored@;
    let mut rest = stored;
    let mut out: Vec<(usize, T)> = Vec::new();
    let ghost mut k: int = 0;
    while rest.len() > 0
        invariant
            0 <= k <= all.len(),
            rest@ == all.skip(k),
            out@ == of_other_servers(all.take(k), server_id),
        decreases rest.len(),
    {
        let e = rest.remove(0);
        proof {
            assert(e == all[k]);
            assert(all.take(k + 1).drop_last() =~= all.take(k));
            assert(all.skip(k + 1) =~= all.skip(k).drop_first());
        }
        if e.0 != server_id {
            out.push(e);
        }
        proof {
            k = k + 1;
        }
    }
    proof {
        assert(all.take(k) =~= all);
    }
    let ghost first = out@;
    let ghost news = new_diagnostics@;
    let mut new_rest = new_diagnostics;
    let ghost mut j: int = 0;
    while new_rest.len() > 0
        invariant
            0 <= j <= news.len(),
            new_rest@ == news.skip(j),
            out@ == first + tagged(news.take(j), server_id),
        decreases new_rest.len(),
    {
        let d = new_rest.remove(0);
        proof {
            assert(d == news[j]);
            assert(news.skip(j + 1) =~= news.skip(j).drop_first());
        }
        out.push((server_id, d));
        proof {
            assert(tagged(news.take(j + 1), server_id) =~= tagged(news.take(j), server_id).push((server_id, d)));
            j = j + 1;
        }
    }
    proof {
        assert(news.take(j) =~= news);
    }
    out
}


proof fn lemma_of_server_append<T>(a: Seq<(usize, T)>, b: Seq<(usize, T)>, x: usize)
    ensures
        of_server(a + b, x) == of_server(a, x) + of_server(b, x),
    decreases b.len(),
{
    if b.len() == 0 {
        assert(a + b =~= a);
        assert(of_server(a, x) + of_server(b, x) =~= of_server(a, x));
    } else {
        lemma_of_server_append(a, b.drop_last(), x);
        assert((a + b).drop_last() =~= a + b.drop_last());
        assert((a + b).last() == b.last());
        if b.last().0 == x {
            assert(of_server(a, x) + of_server(b.drop_last(), x).push(b.last()) =~= (of_server(a, x) + of_server(
                b.drop_last(),
                x,
            )).push(b.last()));
        }
    }
}

proof fn lemma_of_server_others<T>(a: Seq<(usize, T)>, s: usize, x: usize)
    ensures
        of_server(of_other_servers(a, s), x) == (if x == s { Seq::empty() } else { of_server(a, x) }),
    decreases a.len(),
{
    if a.len() > 0 {
        lemma_of_server_others(a.drop_last(), s, x);
        let rest = of_other_servers(a.drop_last(), s);
        if a.last().0 != s {
            assert(rest.push(a.last()).drop_last() =~= rest);
        }
    }
}

proof fn lemma_of_server_tagged<T>(new: Seq<T>, s: usize, x: usize)
    ensures
        of_server(tagged(new, s), x) == (if x == s { tagged(new, s) } else { Seq::empty() }),
    decreases new.len(),
{
    if new.len() > 0 {
        lemma_of_server_tagged(new.drop_last(), s, x);
        assert(tagged(new, s).drop_last() =~= tagged(new.drop_last(), s));
        if x == s {
            assert(tagged(new.drop_last(), s).push(tagged(new, s).last()) =~= tagged(new, s));
        }
    }
}

/// What a server publishes replaces what it published before for the file,
/// and leaves the other servers' diagnostics as they were.
pub proof fn lemma_publish_replaces<T>(stored: Seq<(usize, T)>, server: usize, new: Seq<T>, other: usize)
    requires
        other != server,
    ensures
        of_server(stored_after(stored, server, new), server) == tagged(new, server),
        of_server(stored_after(stored, server, new), other) == of_server(stored, other),
{
    lemma_of_server_append(of_other_servers(stored, server), tagged(new, server), server);
    lemma_of_server_append(of_other_servers(stored, server), tagged(new, server), other);
    lemma_of_server_others(stored, server, server);
    lemma_of_server_others(stored, server, other);
    lemma_of_server_tagged(new, server, server);
    lemma_of_server_tagged(new, server, other);
    assert(Seq::<(usize, T)>::empty() + tagged(new, server) =~= tagged(new, server));
    assert(of_server(stored, other) + Seq::<(usize, T)>::empty() =~= of_server(stored, other));
}


// ---------------------------------------------------------------------------
// Order of drawing

/// LSP's number for a severity: errors 1, warnings 2, informations 3, hints 4.
pub open spec fn severity_value(s: DiagnosticSeverity) -> int {
    match s {
        DiagnosticSeverity::Error => 1,
        DiagnosticSeverity::Warning => 2,
        DiagnosticSeverity::Information => 3,
        DiagnosticSeverity::Hint => 4,
        DiagnosticSeverity::Other(n) => n as int,
    }
}

/// How severities compare as optional values: no severity below any, and
/// severities by their numbers.
pub open spec fn severity_rank(s: Option<DiagnosticSeverity>) -> int {
    match s {
        None => i32::MIN - 1,
        Some(x) => severity_value(x),
    }
}

/// `order` with diagnostic `i` put after every diagnostic whose rank is not
/// below its own.
pub open spec fn insert_by_severity(order: Seq<usize>, ds: Seq<Diagnostic>, i: usize) -> Seq<usize>
    decreases order.len(),
{
    if order.len() == 0 {
        seq![i]
    } else if severity_rank(ds[order.last() as int].severity) >= severity_rank(ds[i as int].severity) {
        order.push(i)
    } else {
        insert_by_severity(order.drop_last(), ds, i).push(order.last())
    }
}

/// The indices of the first `n` diagnostics from the highest rank to the
/// lowest, equal ranks in their order: hints first, errors last, diagnostics
/// without severity after them. Kakoune draws later ranges over earlier ones.
pub open spec fn severity_order(ds: Seq<Diagnostic>, n: int) -> Seq<usize>
    decreases n,
{
    if n <= 0 {
        Seq::empty()
    } else {
        insert_by_severity(severity_order(ds, n - 1), ds, (n - 1) as usize)
    }
}

/// The rank of a severity; see `severity_rank`.
fn rank_of(s: Option<DiagnosticSeverity>) -> (res: i64)
    ensures
        res == severity_rank(s),
{
    match s {
        None => -2147483649,
        Some(DiagnosticSeverity::Error) => 1,
        Some(DiagnosticSeverity::Warning) => 2,
        Some(DiagnosticSeverity::Information) => 3,
        Some(DiagnosticSeverity::Hint) => 4,
        Some(DiagnosticSeverity::Other(n)) => n as i64,
    }
}

/// The diagnostics' indices in the order of drawing; see `severity_order`.
fn order_by_severity(ds: &Vec<Diagnostic>) -> (res: Vec<usize>)
    ensures
        res@ == severity_order(ds@, ds.len() as int),
        forall|k: int| 0 <= k < res.len() ==> res@[k] < ds.len(),
{
    let n = ds.len();
    let mut order: Vec<usize> = Vec::new();
    let mut i: usize = 0;
    while i < n
        invariant
            i <= n,
            n == ds.len(),
            order@ == severity_order(ds@, i as int),
            forall|k: int| 0 <= k < order.len() ==> order@[k] < i,
        decreases n - i,
    {
        let key = rank_of(ds[i].severity);
        let mut p: usize = order.len();
        let mut done = false;
        proof {
            assert(order@.take(p as int) =~= order@);
            assert(order@.skip(p as int) =~= Seq::<usize>::empty());
            assert(insert_by_severity(order@, ds@, i) + Seq::<usize>::empty() =~= insert_by_severity(order@, ds@, i));
        }
        while !done && p > 0
            invariant
                p <= order.len(),
                i < n,
                n == ds.len(),
                forall|k: int| 0 <= k < order.len() ==> order@[k] < i,
                key == severity_rank(ds@[i as int].severity),
                insert_by_severity(order@, ds@, i) == insert_by_severity(order@.take(p as int), ds@, i) + order@.skip(
                    p as int,
                ),
                done ==> p > 0 && severity_rank(ds@[order@[p - 1] as int].severity) >= key,
            decreases 2 * p + (if done { 0int } else { 1int }),
        {
            let prev = order[p - 1];
            if rank_of(ds[prev].severity) >= key {
                done = true;
            } else {
                proof {
                    let t = order@.take(p as int);
                    assert(t.drop_last() =~= order@.take(p - 1));
                    assert(t.last() == prev);
                    assert(order@.skip(p - 1) =~= seq![prev] + order@.skip(p as int));
                    assert(insert_by_severity(t, ds@, i) == insert_by_severity(order@.take(p - 1), ds@, i).push(prev));
                    assert(insert_by_severity(order@.take(p - 1), ds@, i).push(prev) + order@.skip(p as int)
                        =~= insert_by_severity(order@.take(p - 1), ds@, i) + order@.skip(p - 1));
                }
                p = p - 1;
            }
        }
        proof {
            let t = order@.take(p as int);
            if p == 0 {
                assert(t =~= Seq::<usize>::empty());
                assert(insert_by_severity(t, ds@, i) == seq![i]);
                assert(seq![i] + order@.skip(0) =~= order@.insert(0, i));
            } else {
                assert(t.last() == order@[p - 1]);
                assert(insert_by_severity(t, ds@, i) == t.push(i));
                assert(t.push(i) + order@.skip(p as int) =~= order@.insert(p as int, i));
            }
        }
        order.insert(p, i);
        i = i + 1;
    }
    order
}


/// Whether indices are in the order of drawing: ranks never rise.
pub open spec fn by_falling_rank(order: Seq<usize>, ds: Seq<Diagnostic>) -> bool {
    forall|a: int, b: int|
        0 <= a < b < order.len() ==> severity_rank(ds[order[a] as int].severity) >= severity_rank(
            ds[order[b] as int].severity,
        )
}

/// Inserting a diagnostic puts it after every one of a rank not below its
/// own and before the rest.
proof fn lemma_insert_shape(order: Seq<usize>, ds: Seq<Diagnostic>, i: usize) -> (p: int)
    ensures
        0 <= p <= order.len(),
        insert_by_severity(order, ds, i) == order.take(p).push(i) + order.skip(p),
        p > 0 ==> severity_rank(ds[order[p - 1] as int].severity) >= severity_rank(ds[i as int].severity),
        forall|q: int| p <= q < order.len() ==> severity_rank(ds[order[q] as int].severity) < severity_rank(
            ds[i as int].severity,
        ),
    decreases order.len(),
{
    if order.len() == 0 {
        assert(order.take(0).push(i) + order.skip(0) =~= seq![i]);
        0
    } else if severity_rank(ds[order.last() as int].severity) >= severity_rank(ds[i as int].severity) {
        let p = order.len() as int;
        assert(order.take(p).push(i) + order.skip(p) =~= order.push(i));
        p
    } else {
        let init = order.drop_last();
        let p = lemma_insert_shape(init, ds, i);
        assert(init.take(p) =~= order.take(p));
        assert((init.take(p).push(i) + init.skip(p)).push(order.last()) =~= order.take(p).push(i) + order.skip(p));
        assert forall|q: int| p <= q < order.len() implies severity_rank(ds[order[q] as int].severity) < severity_rank(
            ds[i as int].severity,
        ) by {
            if q < order.len() - 1 {
                assert(order[q] == init[q]);
            }
        }
        p
    }
}

/// The order of drawing lists each of the first `n` diagnostics once, from
/// the highest rank to the lowest: hints first, then informations, warnings,
/// errors, and diagnostics without severity last, so that the most severe
/// are drawn over the others.
pub proof fn lemma_drawing_order(ds: Seq<Diagnostic>, n: int)
    requires
        0 <= n <= ds.len(),
    ensures
        severity_order(ds, n).len() == n,
        forall|k: usize| k < n ==> #[trigger] severity_order(ds, n).contains(k),
        forall|t: int| 0 <= t < n ==> (#[trigger] severity_order(ds, n)[t] as int) < n,
        by_falling_rank(severity_order(ds, n), ds),
    decreases n,
{
    if n > 0 {
        lemma_drawing_order(ds, n - 1);
        let order = severity_order(ds, n - 1);
        let i = (n - 1) as usize;
        let p = lemma_insert_shape(order, ds, i);
        let res = order.take(p).push(i) + order.skip(p);
        assert(res == severity_order(ds, n));
        assert forall|t: int| 0 <= t < res.len() implies res[t] == (if t < p {
            order[t]
        } else if t == p {
            i
        } else {
            order[t - 1]
        }) by {}
        assert forall|k: usize| k < n implies #[trigger] res.contains(k) by {
            if k == n - 1 {
                assert(res[p] == i);
            } else {
                assert(order.contains(k));
                let t = choose|t: int| 0 <= t < order.len() && order[t] == k;
                if t < p {
                    assert(res[t] == order[t]);
                } else {
                    assert(res[t + 1] == order[t]);
                }
            }
        }
        assert forall|t: int| 0 <= t < n implies (#[trigger] res[t] as int) < n by {
            if t < p {
                assert(res[t] == order[t]);
            } else if t > p {
                assert(res[t] == order[t - 1]);
            }
        }
        assert forall|a: int, b: int| 0 <= a < b < res.len() implies severity_rank(ds[res[a] as int].severity)
            >= severity_rank(ds[res[b] as int].severity) by {
            if b < p {
                assert(res[a] == order[a] && res[b] == order[b]);
            } else if b == p {
                assert(res[a] == order[a]);
                assert(severity_rank(ds[order[a] as int].severity) >= severity_rank(ds[order[p - 1] as int].severity));
            } else if a < p {
                assert(res[a] == order[a] && res[b] == order[b - 1]);
                assert(severity_rank(ds[order[a] as int].severity) >= severity_rank(ds[order[p - 1] as int].severity));
                assert(severity_rank(ds[order[b - 1] as int].severity) < severity_rank(ds[i as int].severity));
            } else if a == p {
                assert(res[b] == order[b - 1]);
            } else {
                assert(res[a] == order[a - 1] && res[b] == order[b - 1]);
            }
        }
    }
}

// ---------------------------------------------------------------------------
// Highlighted ranges

/// The face of the range of a diagnostic: by severity, that of warnings for
/// diagnostics without one or with one that LSP does not define.
pub open spec fn inline_face(s: Option<DiagnosticSeverity>) -> Seq<char> {
    match s {
        Some(DiagnosticSeverity::Error) => "DiagnosticError"@,
        Some(DiagnosticSeverity::Hint) => "DiagnosticHint"@,
        Some(DiagnosticSeverity::Information) => "DiagnosticInfo"@,
        _ => "DiagnosticWarning"@,
    }
}

/// The tags that a diagnostic may carry.
#[derive(Clone, Copy, Debug, PartialEq, Eq, Structural)]
pub enum DiagnosticTag {
    Deprecated,
    Unnecessary,
}

/// Whether a diagnostic carries a tag.
pub open spec fn has_tag(d: Diagnostic, tag: DiagnosticTag) -> bool {
    match tag {
        DiagnosticTag::Deprecated => d.deprecated,
        DiagnosticTag::Unnecessary => d.unnecessary,
    }
}

/// The face of the range of a tagged diagnostic.
pub open spec fn tag_face(tag: DiagnosticTag) -> Seq<char> {
    match tag {
        DiagnosticTag::Deprecated => "DiagnosticTagDeprecated"@,
        DiagnosticTag::Unnecessary => "DiagnosticTagUnnecessary"@,
    }
}

/// Kakoune's range-specs notation for a range: `start,end`.
pub open spec fn forward_range_text(r: KakouneRange) -> Seq<char> {
    kakoune_position_text(r.start) + seq![','] + kakoune_position_text(r.end)
}

/// A range-specs element: a diagnostic's range in Kakoune's terms, and a face.
pub open spec fn range_spec(d: Diagnostic, enc: OffsetEncoding, lines: Seq<Seq<char>>, face: Seq<char>) -> Seq<char> {
    forward_range_text(range_to_kakoune(d.range, lines, enc)) + seq!['|'] + face
}

/// The ranges of the diagnostics at `order`, each in the face of its severity.
pub open spec fn inline_specs(ds: Seq<Diagnostic>, encs: Seq<OffsetEncoding>, lines: Seq<Seq<char>>, order: Seq<usize>) -> Seq<Seq<char>> {
    order.map_values(|k: usize| range_spec(ds[k as int], encs[k as int], lines, inline_face(ds[k as int].severity)))
}

/// The ranges of those diagnostics at `order` that carry `tag`, in its face.
pub open spec fn tagged_specs(
    ds: Seq<Diagnostic>,
    encs: Seq<OffsetEncoding>,
    lines: Seq<Seq<char>>,
    order: Seq<usize>,
    tag: DiagnosticTag,
) -> Seq<Seq<char>>
    decreases order.len(),
{
    if order.len() == 0 {
        Seq::empty()
    } else {
        let rest = tagged_specs(ds, encs, lines, order.drop_last(), tag);
        let k = order.last() as int;
        if has_tag(ds[k], tag) {
            rest.push(range_spec(ds[k], encs[k], lines, tag_face(tag)))
        } else {
            rest
        }
    }
}

proof fn lemma_join_spaced_push(parts: Seq<Seq<char>>, x: Seq<char>)
    ensures
        join_spaced(parts.push(x)) == if parts.len() == 0 { x } else { join_spaced(parts) + seq![' '] + x },
{
    assert(parts.push(x).drop_last() =~= parts);
}

/// Appends a range-specs element; see `range_spec`.
fn push_range_spec(out: &mut String, d: &Diagnostic, enc: OffsetEncoding, text: &Rope, face: &str)
    requires
        range_defined(d.range, rope_lines(*text), enc),
    ensures
        final(out)@ == old(out)@ + range_spec(*d, enc, rope_lines(*text), face@),
{
    let ghost start = out@;
    let r = lsp_range_to_kakoune(&d.range, text, enc);
    r.start.push_to(out);
    push_char(out, ',');
    r.end.push_to(out);
    push_char(out, '|');
    push_str(out, face);
    assert(out@ =~= start + range_spec(*d, enc, rope_lines(*text), face@));
}

/// The face of a severity; see `inline_face`.
fn inline_face_str(s: Option<DiagnosticSeverity>) -> (res: &'static str)
    ensures
        res@ == inline_face(s),
{
    match s {
        Some(DiagnosticSeverity::Error) => "DiagnosticError",
        Some(DiagnosticSeverity::Hint) => "DiagnosticHint",
        Some(DiagnosticSeverity::Information) => "DiagnosticInfo",
        _ => "DiagnosticWarning",
    }
}

/// The highlighted ranges: of all diagnostics, of deprecated code, and of
/// unnecessary code, each in the order of drawing.
fn range_highlights(ds: &Vec<Diagnostic>, encs: &Vec<OffsetEncoding>, text: &Rope, order: &Vec<usize>) -> (res: (String, String, String))
    requires
        encs.len() == ds.len(),
        forall|k: int| 0 <= k < order.len() ==> order@[k] < ds.len(),
        forall|k: int| 0 <= k < ds.len() ==> range_defined(#[trigger] ds@[k].range, rope_lines(*text), encs@[k]),
    ensures
        res.0@ == join_spaced(inline_specs(ds@, encs@, rope_lines(*text), order@)),
        res.1@ == join_spaced(tagged_specs(ds@, encs@, rope_lines(*text), order@, DiagnosticTag::Deprecated)),
        res.2@ == join_spaced(tagged_specs(ds@, encs@, rope_lines(*text), order@, DiagnosticTag::Unnecessary)),
{
    let ghost lines = rope_lines(*text);
    let mut inline = String::new();
    let mut deprecated = String::new();
    let mut unnecessary = String::new();
    let mut any_deprecated = false;
    let mut any_unnecessary = false;
    let mut t: usize = 0;
    while t < order.len()
        invariant
            t <= order.len(),
            encs.len() == ds.len(),
            lines == rope_lines(*text),
            forall|k: int| 0 <= k < order.len() ==> order@[k] < ds.len(),
            forall|k: int| 0 <= k < ds.len() ==> range_defined(#[trigger] ds@[k].range, rope_lines(*text), encs@[k]),
            inline@ == join_spaced(inline_specs(ds@, encs@, lines, order@.take(t as int))),
            deprecated@ == join_spaced(tagged_specs(ds@, encs@, lines, order@.take(t as int), DiagnosticTag::Deprecated)),
            unnecessary@ == join_spaced(tagged_specs(ds@, encs@, lines, order@.take(t as int), DiagnosticTag::Unnecessary)),
            any_deprecated == (tagged_specs(ds@, encs@, lines, order@.take(t as int), DiagnosticTag::Deprecated).len() > 0),
            any_unnecessary == (tagged_specs(ds@, encs@, lines, order@.take(t as int), DiagnosticTag::Unnecessary).len() > 0),
        decreases order.len() - t,
    {
        let k = order[t];
        let d = &ds[k];
        let enc = encs[k];
        let ghost pre = order@.take(t as int);
        let ghost next = order@.take(t + 1);
        proof {
            assert(next.drop_last() =~= pre);
            assert(next.last() == k);
            assert(inline_specs(ds@, encs@, lines, next) =~= inline_specs(ds@, encs@, lines, pre).push(
                range_spec(ds@[k as int], encs@[k as int], lines, inline_face(ds@[k as int].severity)),
            ));
            lemma_join_spaced_push(
                inline_specs(ds@, encs@, lines, pre),
                range_spec(ds@[k as int], encs@[k as int], lines, inline_face(ds@[k as int].severity)),
            );
            lemma_join_spaced_push(
                tagged_specs(ds@, encs@, lines, pre, DiagnosticTag::Deprecated),
                range_spec(ds@[k as int], encs@[k as int], lines, tag_face(DiagnosticTag::Deprecated)),
            );
            lemma_join_spaced_push(
                tagged_specs(ds@, encs@, lines, pre, DiagnosticTag::Unnecessary),
                range_spec(ds@[k as int], encs@[k as int], lines, tag_face(DiagnosticTag::Unnecessary)),
            );
            assert(range_defined(ds@[k as int].range, lines, encs@[k as int]));
        }
        if t > 0 {
            push_char(&mut inline, ' ');
        }
        push_range_spec(&mut inline, d, enc, text, inline_face_str(d.severity));
        if d.deprecated {
            if any_deprecated {
                push_char(&mut deprecated, ' ');
            }
            push_range_spec(&mut deprecated, d, enc, text, "DiagnosticTagDeprecated");
            any_deprecated = true;
        }
        if d.unnecessary {
            if any_unnecessary {
                push_char(&mut unnecessary, ' ');
            }
            push_range_spec(&mut unnecessary, d, enc, text, "DiagnosticTagUnnecessary");
            any_unnecessary = true;
        }
        t = t + 1;
    }
    proof {
        assert(order@.take(order.len() as int) =~= order@);
    }
    (inline, deprecated, unnecessary)
}


// ---------------------------------------------------------------------------
// Messages at the ends of lines

/// The face of a message shown at the end of a line, by severity.
pub open spec fn inlay_face(s: Option<DiagnosticSeverity>) -> Seq<char> {
    match s {
        Some(DiagnosticSeverity::Error) => "InlayDiagnosticError"@,
        Some(DiagnosticSeverity::Hint) => "InlayDiagnosticHint"@,
        Some(DiagnosticSeverity::Information) => "InlayDiagnosticInfo"@,
        _ => "InlayDiagnosticWarning"@,
    }
}

/// The sign of one diagnostic at the end of its line, in its face.
pub open spec fn inlay_sign(s: Option<DiagnosticSeverity>) -> Seq<char> {
    seq!['{'] + inlay_face(s) + "}%opt[lsp_inlay_diagnostic_sign]"@
}

/// What is shown at the end of a line with diagnostics (the line where
/// their ranges end): a sign for each, and the first line of the message of
/// the most severe, with that severity.
pub struct LineSummary {
    pub line: u32,
    pub signs: Seq<char>,
    pub text: Seq<char>,
    pub severity: Option<DiagnosticSeverity>,
}

/// Whether a diagnostic's message replaces the one a line shows: when the
/// shown one has no severity, or the diagnostic (counted as a warning without
/// a severity) is more severe.
pub open spec fn takes_text(shown: Option<DiagnosticSeverity>, d: Option<DiagnosticSeverity>) -> bool {
    match shown {
        None => true,
        Some(t) => severity_value(
            match d {
                Some(x) => x,
                None => DiagnosticSeverity::Warning,
            },
        ) < severity_value(t),
    }
}

/// A line's summary with one more diagnostic on it.
pub open spec fn absorb(e: LineSummary, d: Diagnostic) -> LineSummary {
    if takes_text(e.severity, d.severity) {
        LineSummary { line: e.line, signs: e.signs + inlay_sign(d.severity), text: first_line(d.message@), severity: d.severity }
    } else {
        LineSummary { line: e.line, signs: e.signs + inlay_sign(d.severity), text: e.text, severity: e.severity }
    }
}

/// The first summary from `i` on that is for `line`, if any.
pub open spec fn line_index_from(es: Seq<LineSummary>, line: u32, i: int) -> Option<int>
    decreases es.len() - i,
{
    if i < 0 || i >= es.len() {
        None
    } else if es[i].line == line {
        Some(i)
    } else {
        line_index_from(es, line, i + 1)
    }
}

/// The summaries of the lines of the first `n` diagnostics, a line in the
/// order in which its first diagnostic comes.
pub open spec fn line_summaries(ds: Seq<Diagnostic>, n: int) -> Seq<LineSummary>
    decreases n,
{
    if n <= 0 {
        Seq::empty()
    } else {
        let es = line_summaries(ds, n - 1);
        let d = ds[n - 1];
        let line = d.range.end.line;
        match line_index_from(es, line, 0) {
            Some(k) => es.update(k, absorb(es[k], d)),
            None => es.push(absorb(LineSummary { line, signs: Seq::empty(), text: Seq::empty(), severity: None }, d)),
        }
    }
}

/// Whether some summary is for `line`.
pub open spec fn has_line(es: Seq<LineSummary>, line: u32) -> bool {
    exists|a: int| 0 <= a < es.len() && (#[trigger] es[a]).line == line
}

proof fn lemma_line_index_from(es: Seq<LineSummary>, line: u32, i: int)
    requires
        0 <= i,
    ensures
        match line_index_from(es, line, i) {
            Some(k) => i <= k < es.len() && es[k].line == line,
            None => forall|j: int| i <= j < es.len() ==> (#[trigger] es[j]).line != line,
        },
    decreases es.len() - i,
{
    if i < es.len() && es[i].line != line {
        lemma_line_index_from(es, line, i + 1);
    }
}

/// Each line with diagnostics (where their ranges end) has one summary, and
/// each summary is for such a line.
pub proof fn lemma_one_summary_per_line(ds: Seq<Diagnostic>, n: int)
    requires
        0 <= n <= ds.len(),
    ensures
        forall|a: int, b: int|
            0 <= a < b < line_summaries(ds, n).len() ==> (#[trigger] line_summaries(ds, n)[a]).line
                != (#[trigger] line_summaries(ds, n)[b]).line,
        forall|k: int| 0 <= k < n ==> has_line(line_summaries(ds, n), (#[trigger] ds[k]).range.end.line),
        forall|a: int|
            0 <= a < line_summaries(ds, n).len() ==> exists|k: int|
                0 <= k < n && (#[trigger] ds[k]).range.end.line == (#[trigger] line_summaries(ds, n)[a]).line,
    decreases n,
{
    if n > 0 {
        lemma_one_summary_per_line(ds, n - 1);
        let es = line_summaries(ds, n - 1);
        let d = ds[n - 1];
        let line = d.range.end.line;
        let res = line_summaries(ds, n);
        lemma_line_index_from(es, line, 0);
        match line_index_from(es, line, 0) {
            Some(m) => {
                assert(res == es.update(m, absorb(es[m], d)));
                assert forall|a: int| 0 <= a < res.len() implies (#[trigger] res[a]).line == es[a].line by {}
                assert forall|k: int| 0 <= k < n implies has_line(res, (#[trigger] ds[k]).range.end.line) by {
                    if k < n - 1 {
                        let a = choose|a: int| 0 <= a < es.len() && (#[trigger] es[a]).line == ds[k].range.end.line;
                        assert(res[a].line == es[a].line);
                    } else {
                        assert(res[m].line == es[m].line);
                    }
                }
                assert forall|a: int| 0 <= a < res.len() implies exists|k: int|
                    0 <= k < n && (#[trigger] ds[k]).range.end.line == (#[trigger] res[a]).line by {
                    assert(res[a].line == es[a].line);
                    let k = choose|k: int| 0 <= k < n - 1 && (#[trigger] ds[k]).range.end.line == es[a].line;
                    assert(ds[k].range.end.line == res[a].line);
                }
            },
            None => {
                let fresh = LineSummary { line, signs: Seq::empty(), text: Seq::empty(), severity: None };
                assert(res == es.push(absorb(fresh, d)));
                assert(res[es.len() as int].line == line);
                assert forall|k: int| 0 <= k < n implies has_line(res, (#[trigger] ds[k]).range.end.line) by {
                    if k < n - 1 {
                        let a = choose|a: int| 0 <= a < es.len() && (#[trigger] es[a]).line == ds[k].range.end.line;
                        assert(res[a] == es[a]);
                    } else {
                        assert(res[es.len() as int].line == line);
                    }
                }
                assert forall|a: int| 0 <= a < res.len() implies exists|k: int|
                    0 <= k < n && (#[trigger] ds[k]).range.end.line == (#[trigger] res[a]).line by {
                    if a < es.len() {
                        assert(res[a] == es[a]);
                        let k = choose|k: int| 0 <= k < n - 1 && (#[trigger] ds[k]).range.end.line == es[a].line;
                        assert(ds[k].range.end.line == res[a].line);
                    } else {
                        assert(ds[n - 1].range.end.line == res[a].line);
                    }
                }
                assert forall|a: int, b: int| 0 <= a < b < res.len() implies (#[trigger] res[a]).line
                    != (#[trigger] res[b]).line by {
                    if b < es.len() {
                        assert(res[a] == es[a] && res[b] == es[b]);
                    } else {
                        assert(res[a] == es[a]);
                    }
                }
            },
        }
    }
}

/// A line-specs element of an end-of-line message: the one-based line, the
/// gap, the signs, and the message in its face, escaped for markup, for a
/// tuple element, and for double quotes, the whole in double quotes.
pub open spec fn inlay_entry(e: LineSummary) -> Seq<char> {
    seq!['"'] + decimal((e.line + 1) as nat) + "|%opt[lsp_inlay_diagnostic_gap]"@ + e.signs + " {"@ + inlay_face(e.severity)
        + seq!['}'] + editor_escape_double_quotes_spec(escape_tuple_element_spec(markup_escape_spec(e.text))) + seq!['"']
}

/// A line's summary while it is gathered.
struct LineInlay {
    line: u32,
    signs: String,
    text: String,
    severity: Option<DiagnosticSeverity>,
}

impl View for LineInlay {
    type V = LineSummary;

    closed spec fn view(&self) -> LineSummary {
        LineSummary { line: self.line, signs: self.signs@, text: self.text@, severity: self.severity }
    }
}

spec fn summaries_of(es: Seq<LineInlay>) -> Seq<LineSummary> {
    es.map_values(|e: LineInlay| e@)
}

/// The face of a message; see `inlay_face`.
fn inlay_face_str(s: Option<DiagnosticSeverity>) -> (res: &'static str)
    ensures
        res@ == inlay_face(s),
{
    match s {
        Some(DiagnosticSeverity::Error) => "InlayDiagnosticError",
        Some(DiagnosticSeverity::Hint) => "InlayDiagnosticHint",
        Some(DiagnosticSeverity::Information) => "InlayDiagnosticInfo",
        _ => "InlayDiagnosticWarning",
    }
}

/// Whether a message replaces the one shown; see `takes_text`.
fn replaces_text(shown: Option<DiagnosticSeverity>, d: Option<DiagnosticSeverity>) -> (res: bool)
    ensures
        res == takes_text(shown, d),
{
    match shown {
        None => true,
        Some(t) => {
            let dv = match d {
                Some(x) => rank_of(Some(x)),
                None => 2,
            };
            dv < rank_of(Some(t))
        },
    }
}

/// A line's summary with one more diagnostic on it; see `absorb`.
fn absorbed(e: &LineInlay, d: &Diagnostic) -> (res: LineInlay)
    ensures
        res@ == absorb(e@, *d),
{
    let mut signs = e.signs.clone();
    push_char(&mut signs, '{');
    push_str(&mut signs, inlay_face_str(d.severity));
    push_str(&mut signs, "}%opt[lsp_inlay_diagnostic_sign]");
    let ghost sign = inlay_sign(d.severity);
    assert(signs@ =~= e.signs@ + sign);
    if replaces_text(e.severity, d.severity) {
        let mut text = String::new();
        push_first_line(&mut text, d.message.as_str());
        LineInlay { line: e.line, signs, text, severity: d.severity }
    } else {
        LineInlay { line: e.line, signs, text: e.text.clone(), severity: e.severity }
    }
}

/// The summaries of the lines with diagnostics; see `line_summaries`.
fn summarize_lines(ds: &Vec<Diagnostic>) -> (res: Vec<LineInlay>)
    ensures
        summaries_of(res@) == line_summaries(ds@, ds.len() as int),
{
    let n = ds.len();
    let mut es: Vec<LineInlay> = Vec::new();
    let mut i: usize = 0;
    assert(summaries_of(es@) =~= Seq::<LineSummary>::empty());
    while i < n
        invariant
            i <= n,
            n == ds.len(),
            summaries_of(es@) == line_summaries(ds@, i as int),
        decreases n - i,
    {
        let d = &ds[i];
        let line = d.range.end.line;
        let ghost view = summaries_of(es@);
        let mut k: usize = 0;
        let mut found = false;
        while !found && k < es.len()
            invariant
                k <= es.len(),
                view == summaries_of(es@),
                line_index_from(view, line, 0) == (if found { Some(k as int) } else { line_index_from(view, line, k as int) }),
                found ==> k < es.len(),
            decreases es.len() - k + (if found { 0int } else { 1int }),
        {
            if es[k].line == line {
                found = true;
            } else {
                k = k + 1;
            }
        }
        if found {
            let e = absorbed(&es[k], d);
            es.set(k, e);
            proof {
                assert(summaries_of(es@) =~= view.update(k as int, absorb(view[k as int], *d)));
            }
        } else {
            let fresh = LineInlay { line, signs: String::new(), text: String::new(), severity: None };
            let e = absorbed(&fresh, d);
            es.push(e);
            proof {
                assert(fresh@ == (LineSummary { line, signs: Seq::empty(), text: Seq::empty(), severity: None }));
                assert(line_index_from(view, line, k as int) is None);
                assert(summaries_of(es@) =~= view.push(
                    absorb(LineSummary { line, signs: Seq::empty(), text: Seq::empty(), severity: None }, *d),
                ));
            }
        }
        i = i + 1;
    }
    es
}

/// The line-specs of the end-of-line messages; see `inlay_entry`.
fn inlay_entries(es: &Vec<LineInlay>) -> (res: String)
    ensures
        res@ == join_spaced(summaries_of(es@).map_values(|e: LineSummary| inlay_entry(e))),
{
    let mut out = String::new();
    let mut t: usize = 0;
    while t < es.len()
        invariant
            t <= es.len(),
            out@ == join_spaced(summaries_of(es@.take(t as int)).map_values(|e: LineSummary| inlay_entry(e))),
        decreases es.len() - t,
    {
        let e = &es[t];
        let ghost pre = summaries_of(es@.take(t as int)).map_values(|e: LineSummary| inlay_entry(e));
        proof {
            assert(summaries_of(es@.take(t + 1)).map_values(|e: LineSummary| inlay_entry(e)) =~= pre.push(inlay_entry(e@)));
            lemma_join_spaced_push(pre, inlay_entry(e@));
        }
        let ghost start = out@;
        if t > 0 {
            push_char(&mut out, ' ');
        }
        let ghost mid = out@;
        push_char(&mut out, '"');
        push_decimal(&mut out, e.line as u64 + 1);
        push_str(&mut out, "|%opt[lsp_inlay_diagnostic_gap]");
        push_str(&mut out, e.signs.as_str());
        push_str(&mut out, " {");
        push_str(&mut out, inlay_face_str(e.severity));
        push_char(&mut out, '}');
        let m = escape_kakoune_markup(e.text.as_str());
        let t2 = escape_tuple_element(m.as_str());
        let q = editor_escape_double_quotes(t2.as_str());
        push_str(&mut out, q.as_str());
        push_char(&mut out, '"');
        proof {
            assert(out@ =~= mid + inlay_entry(e@));
        }
        t = t + 1;
    }
    proof {
        assert(es@.take(es.len() as int) =~= es@);
    }
    out
}


// ---------------------------------------------------------------------------
// The whole display

/// Whether a buffer's diagnostics can be shown: one offset encoding for each
/// (that of its server), every range convertible to Kakoune's, and the
/// counts and lines within 32 bits.
pub open spec fn displayable(ds: Seq<Diagnostic>, encs: Seq<OffsetEncoding>, lines: Seq<Seq<char>>, lens_lines: Seq<u32>) -> bool {
    &&& encs.len() == ds.len()
    &&& ds.len() < u32::MAX
    &&& forall|k: int| 0 <= k < ds.len() ==> range_defined(#[trigger] ds[k].range, lines, encs[k])
    &&& forall|k: int| 0 <= k < lens_lines.len() ==> #[trigger] lens_lines[k] < u32::MAX
}

/// The options that show a buffer's diagnostics, for its version: the
/// counts by severity, the highlighted ranges, the gutter flags (with a blank
/// flag on the first line, so that the gutter keeps its width), and the
/// messages at the ends of lines.
pub open spec fn display_body(
    version: i32,
    ds: Seq<Diagnostic>,
    encs: Seq<OffsetEncoding>,
    lines: Seq<Seq<char>>,
    lens_lines: Seq<u32>,
) -> Seq<char> {
    let v = int_decimal(version as int);
    let order = severity_order(ds, ds.len() as int);
    let flags = join_spaced(flag_texts(merge_flags(diagnostic_flags(ds), lens_lines.map_values(|l: u32| l as int))));
    "set-option buffer lsp_diagnostic_error_count "@ + decimal(count_severity(ds, SeverityClass::Errors))
        + "; set-option buffer lsp_diagnostic_hint_count "@ + decimal(count_severity(ds, SeverityClass::Hints))
        + "; set-option buffer lsp_diagnostic_info_count "@ + decimal(count_severity(ds, SeverityClass::Infos))
        + "; set-option buffer lsp_diagnostic_warning_count "@ + decimal(count_severity(ds, SeverityClass::Warnings))
        + "; set-option buffer lsp_inline_diagnostics "@ + v + seq![' '] + join_spaced(inline_specs(ds, encs, lines, order))
        + "; set-option buffer lsp_inline_diagnostics_deprecated "@ + v + seq![' '] + join_spaced(
        tagged_specs(ds, encs, lines, order, DiagnosticTag::Deprecated),
    ) + "; set-option buffer lsp_inline_diagnostics_unnecessary "@ + v + seq![' '] + join_spaced(
        tagged_specs(ds, encs, lines, order, DiagnosticTag::Unnecessary),
    ) + "; evaluate-commands \"set-option buffer lsp_diagnostic_lines "@ + v + seq![' '] + flags
        + " '0|%opt[lsp_diagnostic_line_error_sign]'\"; set-option buffer lsp_inlay_diagnostics "@ + v + seq![' ']
        + join_spaced(line_summaries(ds, ds.len() as int).map_values(|e: LineSummary| inlay_entry(e)))
}

/// The command that shows a buffer's diagnostics: the options, set in that
/// buffer, as one `%§...§` string (a `§` in it doubled).
pub open spec fn display_command(
    buffile: Seq<char>,
    version: i32,
    ds: Seq<Diagnostic>,
    encs: Seq<OffsetEncoding>,
    lines: Seq<Seq<char>>,
    lens_lines: Seq<u32>,
) -> Seq<char> {
    "evaluate-commands -buffer "@ + editor_quote_spec(buffile) + " %§"@ + replace_char(
        display_body(version, ds, encs, lines, lens_lines),
        '§',
        "§§"@,
    ) + "§"@
}

/// Whether a buffer's diagnostics can be shown; see `displayable`.
pub fn diagnostics_displayable(
    diagnostics: &Vec<Diagnostic>,
    encodings: &Vec<OffsetEncoding>,
    text: &Rope,
    lens_lines: &Vec<u32>,
) -> (res: bool)
    ensures
        res == displayable(diagnostics@, encodings@, rope_lines(*text), lens_lines@),
{
    if encodings.len() != diagnostics.len() || diagnostics.len() >= u32::MAX as usize {
        return false;
    }
    let mut k: usize = 0;
    while k < diagnostics.len()
        invariant
            k <= diagnostics.len(),
            encodings.len() == diagnostics.len(),
            forall|j: int| 0 <= j < k ==> range_defined(#[trigger] diagnostics@[j].range, rope_lines(*text), encodings@[j]),
        decreases diagnostics.len() - k,
    {
        if !lsp_range_convertible(&diagnostics[k].range, text, encodings[k]) {
            return false;
        }
        k = k + 1;
    }
    let mut j: usize = 0;
    while j < lens_lines.len()
        invariant
            j <= lens_lines.len(),
            forall|i: int| 0 <= i < j ==> #[trigger] lens_lines@[i] < u32::MAX,
        decreases lens_lines.len() - j,
    {
        if lens_lines[j] == u32::MAX {
            return false;
        }
        j = j + 1;
    }
    true
}

/// The command that shows a buffer's diagnostics; see `display_command`.
pub fn diagnostics_display_command(
    buffile: &str,
    version: i32,
    diagnostics: &Vec<Diagnostic>,
    encodings: &Vec<OffsetEncoding>,
    text: &Rope,
    lens_lines: &Vec<u32>,
) -> (res: String)
    requires
        displayable(diagnostics@, encodings@, rope_lines(*text), lens_lines@),
    ensures
        res@ == display_command(buffile@, version, diagnostics@, encodings@, rope_lines(*text), lens_lines@),
{
    let ghost lines = rope_lines(*text);
    proof {
        assert forall|k: int| 0 <= k < diagnostics@.len() implies #[trigger] diagnostics@[k].range.start.line < u32::MAX by {
            assert(range_defined(diagnostics@[k].range, lines, encodings@[k]));
        }
    }
    let (flags, errors, hints, infos, warnings) = gather_line_flags(diagnostics, lens_lines);
    let order = order_by_severity(diagnostics);
    let (inline, deprecated, unnecessary) = range_highlights(diagnostics, encodings, text, &order);
    let summaries = summarize_lines(diagnostics);
    let inlay = inlay_entries(&summaries);
    let mut v = String::new();
    push_int(&mut v, version);
    let mut body = String::new();
    push_str(&mut body, "set-option buffer lsp_diagnostic_error_count ");
    push_decimal(&mut body, errors as u64);
    push_str(&mut body, "; set-option buffer lsp_diagnostic_hint_count ");
    push_decimal(&mut body, hints as u64);
    push_str(&mut body, "; set-option buffer lsp_diagnostic_info_count ");
    push_decimal(&mut body, infos as u64);
    push_str(&mut body, "; set-option buffer lsp_diagnostic_warning_count ");
    push_decimal(&mut body, warnings as u64);
    push_str(&mut body, "; set-option buffer lsp_inline_diagnostics ");
    push_str(&mut body, v.as_str());
    push_char(&mut body, ' ');
    push_str(&mut body, inline.as_str());
    push_str(&mut body, "; set-option buffer lsp_inline_diagnostics_deprecated ");
    push_str(&mut body, v.as_str());
    push_char(&mut body, ' ');
    push_str(&mut body, deprecated.as_str());
    push_str(&mut body, "; set-option buffer lsp_inline_diagnostics_unnecessary ");
    push_str(&mut body, v.as_str());
    push_char(&mut body, ' ');
    push_str(&mut body, unnecessary.as_str());
    push_str(&mut body, "; evaluate-commands \"set-option buffer lsp_diagnostic_lines ");
    push_str(&mut body, v.as_str());
    push_char(&mut body, ' ');
    push_str(&mut body, flags.as_str());
    push_str(&mut body, " '0|%opt[lsp_diagnostic_line_error_sign]'\"; set-option buffer lsp_inlay_diagnostics ");
    push_str(&mut body, v.as_str());
    push_char(&mut body, ' ');
    push_str(&mut body, inlay.as_str());
    assert(body@ =~= display_body(version, diagnostics@, encodings@, lines, lens_lines@));
    let mut out = String::new();
    push_str(&mut out, "evaluate-commands -buffer ");
    let q = editor_quote(buffile);
    push_str(&mut out, q.as_str());
    push_str(&mut out, " %§");
    push_replaced(&mut out, body.as_str(), '§', "§§");
    push_str(&mut out, "§");
    assert(out@ =~= display_command(buffile@, version, diagnostics@, encodings@, lines, lens_lines@));
    out
}

} // verus!
