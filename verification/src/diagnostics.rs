//! Diagnostics as Kakoune shows them: their one-line or hover text, and the
//! flags in the gutter of the lines they are on.

use vstd::prelude::*;
use crate::strings::{chars_of, decimal, push_char, push_decimal, push_str};
use crate::text_edit::join_spaced;
use crate::types::{KakounePosition, Range};

pub mod display;
pub mod listing;

verus! {

/// How severe a diagnostic is.
#[derive(Clone, Copy, Debug, PartialEq, Eq, Structural)]
pub enum DiagnosticSeverity {
    Error,
    Warning,
    Information,
    Hint,
    /// A value that LSP does not define.
    Other(i32),
}

/// A diagnostic's code: a number or a string.
#[derive(Clone, Debug)]
pub enum DiagnosticCode {
    Number(i32),
    String(String),
}

/// A diagnostic, as far as Kakoune shows it.
#[derive(Clone, Debug)]
pub struct Diagnostic {
    pub range: Range,
    pub severity: Option<DiagnosticSeverity>,
    pub code: Option<DiagnosticCode>,
    /// Where a description of the code is found.
    pub code_description: Option<String>,
    /// The tool that reported the diagnostic.
    pub source: Option<String>,
    pub message: String,
    /// Whether it is tagged as about deprecated code.
    pub deprecated: bool,
    /// Whether it is tagged as about unused or unnecessary code.
    pub unnecessary: bool,
}

// ---------------------------------------------------------------------------
// Text of a diagnostic

/// Whether `c` is white space in Unicode's sense (the `White_Space` property,
/// as `char::is_whitespace` documents it).
pub open spec fn is_white_space(c: char) -> bool {
    ('\u{09}' <= c && c <= '\u{0D}') || c == ' ' || c == '\u{85}' || c == '\u{A0}' || c == '\u{1680}'
        || ('\u{2000}' <= c && c <= '\u{200A}') || c == '\u{2028}' || c == '\u{2029}' || c == '\u{202F}'
        || c == '\u{205F}' || c == '\u{3000}'
}

/// `char::is_whitespace`, by its documented definition.
pub fn is_whitespace(c: char) -> (res: bool)
    ensures
        res == is_white_space(c),
{
    ('\u{09}' <= c && c <= '\u{0D}') || c == ' ' || c == '\u{85}' || c == '\u{A0}' || c == '\u{1680}'
        || ('\u{2000}' <= c && c <= '\u{200A}') || c == '\u{2028}' || c == '\u{2029}' || c == '\u{202F}'
        || c == '\u{205F}' || c == '\u{3000}'
}

/// `s` without leading white space.
pub open spec fn trim_start(s: Seq<char>) -> Seq<char>
    decreases s.len(),
{
    if s.len() > 0 && is_white_space(s[0]) { trim_start(s.drop_first()) } else { s }
}

/// `s` without trailing white space.
pub open spec fn trim_end(s: Seq<char>) -> Seq<char>
    decreases s.len(),
{
    if s.len() > 0 && is_white_space(s.last()) { trim_end(s.drop_last()) } else { s }
}

/// `s` without leading and trailing white space, as `str::trim` gives it.
pub open spec fn trim_spec(s: Seq<char>) -> Seq<char> {
    trim_end(trim_start(s))
}

/// Appends `s` without leading and trailing white space.
pub fn push_trimmed(out: &mut String, s: &str)
    ensures
        final(out)@ == old(out)@ + trim_spec(s@),
{
    let chars = chars_of(s);
    let mut a: usize = 0;
    assert(s@.skip(0) =~= s@);
    while a < chars.len() && is_whitespace(chars[a])
        invariant
            a <= chars.len(),
            chars@ == s@,
            trim_start(s@) == trim_start(s@.skip(a as int)),
        decreases chars.len() - a,
    {
        assert(s@.skip(a as int).drop_first() =~= s@.skip(a + 1));
        a += 1;
    }
    let mut b: usize = chars.len();
    assert(s@.skip(a as int) =~= s@.subrange(a as int, b as int));
    while b > a && is_whitespace(chars[b - 1])
        invariant
            a <= b <= chars.len(),
            chars@ == s@,
            trim_start(s@) == s@.skip(a as int),
            trim_end(s@.skip(a as int)) == trim_end(s@.subrange(a as int, b as int)),
        decreases b,
    {
        assert(s@.subrange(a as int, b as int).drop_last() =~= s@.subrange(a as int, b - 1));
        b -= 1;
    }
    let ghost start = out@;
    let mut i = a;
    while i < b
        invariant
            a <= i <= b <= chars.len(),
            chars@ == s@,
            out@ == start + s@.subrange(a as int, i as int),
        decreases b - i,
    {
        push_char(out, chars[i]);
        i += 1;
        assert(out@ =~= start + s@.subrange(a as int, i as int));
    }
}

/// The name of a severity; no severity, or one that LSP does not define, counts as a warning.
pub open spec fn severity_name(severity: Option<DiagnosticSeverity>) -> Seq<char> {
    match severity {
        Some(DiagnosticSeverity::Error) => "error"@,
        Some(DiagnosticSeverity::Hint) => "hint"@,
        Some(DiagnosticSeverity::Information) => "info"@,
        _ => "warning"@,
    }
}

/// The decimal notation of an integer, with a minus sign when negative.
pub open spec fn int_decimal(n: int) -> Seq<char> {
    if n < 0 { seq!['-'] + decimal((-n) as nat) } else { decimal(n as nat) }
}

/// The text of a diagnostic code.
pub open spec fn code_text(code: DiagnosticCode) -> Seq<char> {
    match code {
        DiagnosticCode::Number(n) => int_decimal(n as int),
        DiagnosticCode::String(s) => s@,
    }
}

/// `x` in square brackets.
pub open spec fn bracketed(x: Seq<char>) -> Seq<char> {
    seq!['['] + x + seq![']']
}

/// The labels of a diagnostic: severity, server (if given), source and code.
pub open spec fn diagnostic_labels(d: Diagnostic, server_name: Option<Seq<char>>) -> Seq<char> {
    bracketed(severity_name(d.severity))
        + (match server_name { Some(n) => bracketed(n), None => Seq::empty() })
        + (match d.source { Some(s) => bracketed(s@), None => Seq::empty() })
        + (match d.code { Some(c) => bracketed(code_text(c)), None => Seq::empty() })
}

/// The text of a diagnostic: its labels, then its trimmed message (on a line
/// of its own for a hover, else after a space), then the link to its code's
/// description if any. Outside a hover, line feeds are shown as `␊`.
pub open spec fn diagnostic_text_spec(d: Diagnostic, server_name: Option<Seq<char>>, for_hover: bool) -> Seq<char> {
    let text = diagnostic_labels(d, server_name) + (if for_hover { seq!['\n'] } else { seq![' '] })
        + trim_spec(d.message@) + (match d.code_description {
        Some(href) => (if for_hover { seq!['\n'] } else { " -- "@ }) + "Description: "@ + href@,
        None => Seq::empty(),
    });
    if for_hover { text } else { crate::util::replace_char(text, '\n', seq!['\u{240A}']) }
}

/// Appends the decimal notation of an integer.
pub(crate) fn push_int(out: &mut String, n: i32)
    ensures
        final(out)@ == old(out)@ + int_decimal(n as int),
{
    let ghost start = out@;
    if n < 0 {
        push_char(out, '-');
        let m: i64 = -(n as i64);
        push_decimal(out, m as u64);
        assert(out@ =~= start + int_decimal(n as int));
    } else {
        push_decimal(out, n as u64);
    }
}

/// Appends `x` in square brackets.
fn push_bracketed(out: &mut String, x: &str)
    ensures
        final(out)@ == old(out)@ + bracketed(x@),
{
    let ghost start = out@;
    push_char(out, '[');
    push_str(out, x);
    push_char(out, ']');
    assert(out@ =~= start + bracketed(x@));
}

/// Appends the severity label.
fn push_severity(text: &mut String, severity: Option<DiagnosticSeverity>)
    ensures
        final(text)@ == old(text)@ + bracketed(severity_name(severity)),
{
    let name = match severity {
        Some(DiagnosticSeverity::Error) => "error",
        Some(DiagnosticSeverity::Hint) => "hint",
        Some(DiagnosticSeverity::Information) => "info",
        _ => "warning",
    };
    push_bracketed(text, name);
}

/// Appends the code label, if any.
fn push_code(text: &mut String, code: &Option<DiagnosticCode>)
    ensures
        final(text)@ == old(text)@ + match code { Some(c) => bracketed(code_text(*c)), None => Seq::empty() },
{
    let ghost start = text@;
    if let Some(code) = code {
        push_char(text, '[');
        match code {
            DiagnosticCode::Number(n) => push_int(text, *n),
            DiagnosticCode::String(s) => push_str(text, s.as_str()),
        }
        push_char(text, ']');
        assert(text@ =~= start + bracketed(code_text(*code)));
    } else {
        assert(text@ =~= start + Seq::<char>::empty());
    }
}

/// Appends `x` in square brackets, if any.
fn push_opt_bracketed(text: &mut String, x: Option<&str>)
    ensures
        final(text)@ == old(text)@ + match x { Some(n) => bracketed(n@), None => Seq::empty() },
{
    let ghost start = text@;
    if let Some(x) = x {
        push_bracketed(text, x);
    } else {
        assert(text@ =~= start + Seq::<char>::empty());
    }
}

/// Appends the labels of a diagnostic.
fn push_diagnostic_labels(text: &mut String, d: &Diagnostic, server_name: Option<&str>)
    ensures
        final(text)@ == old(text)@ + diagnostic_labels(*d, match server_name { Some(n) => Some(n@), None => None }),
{
    let ghost start = text@;
    push_severity(text, d.severity);
    push_opt_bracketed(text, server_name);
    let source = match &d.source {
        Some(s) => Some(s.as_str()),
        None => None,
    };
    push_opt_bracketed(text, source);
    push_code(text, &d.code);
    assert(text@ =~= start + diagnostic_labels(*d, match server_name { Some(n) => Some(n@), None => None }));
}

/// Appends the link to a code's description, if any.
fn push_description(text: &mut String, code_description: &Option<String>, for_hover: bool)
    ensures
        final(text)@ == old(text)@ + match code_description {
            Some(href) => (if for_hover { seq!['\n'] } else { " -- "@ }) + "Description: "@ + href@,
            None => Seq::empty(),
        },
{
    let ghost start = text@;
    if let Some(href) = code_description {
        if for_hover {
            push_char(text, '\n');
        } else {
            push_str(text, " -- ");
        }
        push_str(text, "Description: ");
        push_str(text, href.as_str());
        assert(text@ =~= start + (if for_hover { seq!['\n'] } else { " -- "@ }) + "Description: "@ + href@);
    } else {
        assert(text@ =~= start + Seq::<char>::empty());
    }
}

/// The text of a diagnostic; see `diagnostic_text_spec`. Its range, tags and
/// related information are not part of it.
pub fn diagnostic_text(d: &Diagnostic, server_name: Option<&str>, for_hover: bool) -> (res: String)
    ensures
        res@ == diagnostic_text_spec(*d, match server_name { Some(n) => Some(n@), None => None }, for_hover),
{
    let is_multiline = for_hover;
    let mut text = String::new();
    push_diagnostic_labels(&mut text, d, server_name);
    let ghost labels = text@;
    if is_multiline {
        push_char(&mut text, '\n');
    } else {
        push_char(&mut text, ' ');
    }
    push_trimmed(&mut text, d.message.as_str());
    push_description(&mut text, &d.code_description, for_hover);
    let ghost whole = text@;
    assert(whole =~= labels
        + (if for_hover { seq!['\n'] } else { seq![' '] }) + trim_spec(d.message@) + (match d.code_description {
            Some(href) => (if for_hover { seq!['\n'] } else { " -- "@ }) + "Description: "@ + href@,
            None => Seq::empty(),
        }));
    if !is_multiline {
        proof {
            reveal_strlit("\u{240A}");
            assert("\u{240A}"@ =~= seq!['\u{240A}']);
        }
        crate::util::replaced(text.as_str(), '\n', "\u{240A}")
    } else {
        text
    }
}

// ---------------------------------------------------------------------------
// Related information

/// A piece of information related to a diagnostic, located in a file.
#[derive(Clone, Debug)]
pub struct RelatedInformation {
    /// The file's path, as shown (relative to the project root where it lies inside it).
    pub path: String,
    pub position: KakounePosition,
    pub message: String,
}

/// The line for one piece of related information: `path:line:column: ` and
/// the message, after the server's name in brackets if given.
pub open spec fn related_line(info: RelatedInformation, server_label: Option<Seq<char>>) -> Seq<char> {
    info.path@ + seq![':'] + decimal(info.position.line as nat) + seq![':'] + decimal(info.position.column as nat)
        + seq![':', ' '] + (match server_label { Some(n) => bracketed(n) + seq![' '], None => Seq::empty() })
        + info.message@
}

/// The lines for pieces of related information.
pub open spec fn related_lines(infos: Seq<RelatedInformation>, server_label: Option<Seq<char>>) -> Seq<Seq<char>> {
    infos.map_values(|i: RelatedInformation| related_line(i, server_label))
}

/// The lines joined by line feeds.
pub open spec fn join_lines(parts: Seq<Seq<char>>) -> Seq<char>
    decreases parts.len(),
{
    if parts.len() == 0 {
        Seq::empty()
    } else if parts.len() == 1 {
        parts[0]
    } else {
        join_lines(parts.drop_last()) + seq!['\n'] + parts.last()
    }
}

/// Appends the line for one piece of related information.
fn push_related_line(out: &mut String, info: &RelatedInformation, server_label: Option<&str>)
    ensures
        final(out)@ == old(out)@ + related_line(*info, match server_label { Some(n) => Some(n@), None => None }),
{
    let ghost start = out@;
    push_str(out, info.path.as_str());
    push_char(out, ':');
    push_decimal(out, info.position.line as u64);
    push_char(out, ':');
    push_decimal(out, info.position.column as u64);
    push_char(out, ':');
    push_char(out, ' ');
    let ghost mid = out@;
    if let Some(n) = server_label {
        push_bracketed(out, n);
        push_char(out, ' ');
    }
    let ghost mid2 = out@;
    assert(mid2 =~= mid + match server_label { Some(n) => bracketed(n@) + seq![' '], None => Seq::empty() });
    push_str(out, info.message.as_str());
    assert(out@ =~= start + related_line(*info, match server_label { Some(n) => Some(n@), None => None }));
}

/// The related information of a diagnostic, each on a line of its own after a
/// line feed; `None` when there is none.
pub fn format_related_information(infos: &Vec<RelatedInformation>, server_label: Option<&str>) -> (res: Option<String>)
    ensures
        infos@.len() == 0 ==> res is None,
        infos@.len() > 0 ==> (res matches Some(t) && t@ == seq!['\n'] + join_lines(
            related_lines(infos@, match server_label { Some(n) => Some(n@), None => None }),
        )),
{
    if infos.len() == 0 {
        return None;
    }
    let ghost label = match server_label { Some(n) => Some(n@), None => None };
    let ghost lines = related_lines(infos@, label);
    let mut out = String::new();
    push_char(&mut out, '\n');
    let mut k: usize = 0;
    while k < infos.len()
        invariant
            k <= infos.len(),
            lines == related_lines(infos@, label),
            label == match server_label { Some(n) => Some(n@), None => None },
            out@ == seq!['\n'] + join_lines(lines.take(k as int)),
        decreases infos.len() - k,
    {
        let ghost before = out@;
        if k > 0 {
            push_char(&mut out, '\n');
        }
        let info = &infos[k];
        let ghost line_start = out@;
        push_related_line(&mut out, info, server_label);
        proof {
            assert(out@ =~= line_start + lines[k as int]);
            assert(lines.take(k + 1).drop_last() =~= lines.take(k as int));
            if k == 0 {
                assert(lines.take(1) =~= seq![lines[0]]);
            }
            assert(out@ =~= seq!['\n'] + join_lines(lines.take(k + 1)));
        }
        k += 1;
    }
    assert(lines.take(k as int) =~= lines);
    Some(out)
}


// ---------------------------------------------------------------------------
// Line flags

/// The gutter flag of a diagnostic of this severity; none for a severity
/// that LSP does not define.
pub open spec fn severity_flag(severity: Option<DiagnosticSeverity>) -> Seq<char> {
    match severity {
        Some(DiagnosticSeverity::Error) => "{LineFlagError}%opt[lsp_diagnostic_line_error_sign]"@,
        Some(DiagnosticSeverity::Hint) => "{LineFlagHint}%opt[lsp_diagnostic_line_hint_sign]"@,
        Some(DiagnosticSeverity::Information) => "{LineFlagInfo}%opt[lsp_diagnostic_line_info_sign]"@,
        Some(DiagnosticSeverity::Warning) | None => "{LineFlagWarning}%opt[lsp_diagnostic_line_warning_sign]"@,
        Some(DiagnosticSeverity::Other(_)) => Seq::empty(),
    }
}

/// The gutter flag of a code lens.
pub open spec fn lens_flag() -> Seq<char> {
    "%opt[lsp_code_lens_sign]"@
}

/// The line and gutter flag of each diagnostic.
pub open spec fn diagnostic_flags(ds: Seq<Diagnostic>) -> Seq<(int, Seq<char>)> {
    ds.map_values(|d: Diagnostic| (d.range.start.line as int, severity_flag(d.severity)))
}

/// Flags of diagnostics and code lenses merged by line (both taken as sorted
/// by line); on a line that has both, the diagnostic's flag wins and the
/// lens's is dropped.
pub open spec fn merge_flags(ds: Seq<(int, Seq<char>)>, ls: Seq<int>) -> Seq<(int, Seq<char>)>
    decreases ds.len() + ls.len(),
{
    if ds.len() == 0 {
        if ls.len() == 0 { Seq::empty() } else { seq![(ls[0], lens_flag())] + merge_flags(ds, ls.drop_first()) }
    } else if ls.len() == 0 {
        ds
    } else if ds[0].0 < ls[0] {
        seq![ds[0]] + merge_flags(ds.drop_first(), ls)
    } else if ls[0] < ds[0].0 {
        seq![(ls[0], lens_flag())] + merge_flags(ds, ls.drop_first())
    } else {
        seq![ds[0]] + merge_flags(ds.drop_first(), ls.drop_first())
    }
}

/// A flag as a line-specs element: `'line|flag'`, with the line one-based.
pub open spec fn flag_text(item: (int, Seq<char>)) -> Seq<char> {
    seq!['\''] + decimal((item.0 + 1) as nat) + seq!['|'] + item.1 + seq!['\'']
}

/// The texts of flags.
pub open spec fn flag_texts(items: Seq<(int, Seq<char>)>) -> Seq<Seq<char>> {
    items.map_values(|it: (int, Seq<char>)| flag_text(it))
}

/// The classes of severity that are counted: errors, hints, informations,
/// and warnings (which include diagnostics without severity).
#[derive(Clone, Copy, Debug, PartialEq, Eq, Structural)]
pub enum SeverityClass {
    Errors,
    Hints,
    Infos,
    Warnings,
}

/// Whether a severity is of a class; one that LSP does not define is of none.
pub open spec fn in_class(s: Option<DiagnosticSeverity>, class: SeverityClass) -> bool {
    match class {
        SeverityClass::Errors => s == Some(DiagnosticSeverity::Error),
        SeverityClass::Hints => s == Some(DiagnosticSeverity::Hint),
        SeverityClass::Infos => s == Some(DiagnosticSeverity::Information),
        SeverityClass::Warnings => s == Some(DiagnosticSeverity::Warning) || s is None,
    }
}

/// The number of diagnostics whose severity is of a class.
pub open spec fn count_severity(ds: Seq<Diagnostic>, class: SeverityClass) -> nat
    decreases ds.len(),
{
    if ds.len() == 0 {
        0
    } else {
        count_severity(ds.drop_last(), class) + if in_class(ds.last().severity, class) { 1nat } else { 0nat }
    }
}

/// Appends the gutter flag of a diagnostic of this severity.
fn push_severity_flag(out: &mut String, severity: Option<DiagnosticSeverity>)
    ensures
        final(out)@ == old(out)@ + severity_flag(severity),
{
    let ghost start = out@;
    match severity {
        Some(DiagnosticSeverity::Error) => push_str(out, "{LineFlagError}%opt[lsp_diagnostic_line_error_sign]"),
        Some(DiagnosticSeverity::Hint) => push_str(out, "{LineFlagHint}%opt[lsp_diagnostic_line_hint_sign]"),
        Some(DiagnosticSeverity::Information) => push_str(out, "{LineFlagInfo}%opt[lsp_diagnostic_line_info_sign]"),
        Some(DiagnosticSeverity::Warning) | None => push_str(out, "{LineFlagWarning}%opt[lsp_diagnostic_line_warning_sign]"),
        Some(DiagnosticSeverity::Other(_)) => {
            assert(out@ =~= start + Seq::<char>::empty());
        },
    }
}

/// Appends a flag's line-specs element, after a space unless it is the first.
fn push_flag(out: &mut String, first: bool, line: u32, diagnostic: Option<Option<DiagnosticSeverity>>)
    requires
        line < u32::MAX,
    ensures
        final(out)@ == old(out)@ + (if first { Seq::empty() } else { seq![' '] }) + flag_text((line as int, match diagnostic {
            Some(sev) => severity_flag(sev),
            None => lens_flag(),
        })),
{
    let ghost start = out@;
    if !first {
        push_char(out, ' ');
    }
    let ghost mid = out@;
    push_char(out, '\'');
    push_decimal(out, (line + 1) as u64);
    push_char(out, '|');
    match diagnostic {
        Some(sev) => push_severity_flag(out, sev),
        None => push_str(out, "%opt[lsp_code_lens_sign]"),
    }
    push_char(out, '\'');
    assert(out@ =~= start + (if first { Seq::empty() } else { seq![' '] }) + flag_text((line as int, match diagnostic {
        Some(sev) => severity_flag(sev),
        None => lens_flag(),
    })));
}

proof fn lemma_join_spaced_push(parts: Seq<Seq<char>>, x: Seq<char>)
    ensures
        join_spaced(parts.push(x)) == if parts.len() == 0 { x } else { join_spaced(parts) + seq![' '] + x },
{
    assert(parts.push(x).drop_last() =~= parts);
}

proof fn lemma_flag_texts_push(done: Seq<(int, Seq<char>)>, item: (int, Seq<char>))
    ensures
        flag_texts(done.push(item)) == flag_texts(done).push(flag_text(item)),
{
    assert(flag_texts(done.push(item)) =~= flag_texts(done).push(flag_text(item)));
}

/// Merging from a diagnostic at or before the next lens takes the diagnostic,
/// and drops the lens on its line.
proof fn lemma_merge_step_diagnostic(ds: Seq<(int, Seq<char>)>, ls: Seq<int>, i: int, j: int)
    requires
        0 <= i < ds.len(),
        0 <= j <= ls.len(),
        j < ls.len() ==> ds[i].0 <= ls[j],
    ensures
        merge_flags(ds.skip(i), ls.skip(j)) == seq![ds[i]] + merge_flags(ds.skip(i + 1),
            ls.skip(if j < ls.len() && ls[j] == ds[i].0 { j + 1 } else { j })),
{
    let d_rest = ds.skip(i);
    let l_rest = ls.skip(j);
    assert(d_rest[0] == ds[i]);
    assert(d_rest.drop_first() =~= ds.skip(i + 1));
    if j < ls.len() {
        assert(l_rest[0] == ls[j]);
        assert(l_rest.drop_first() =~= ls.skip(j + 1));
    } else {
        assert(l_rest.len() == 0);
        assert(ds.skip(i + 1).len() == 0 || ds.skip(i + 1).len() > 0);
        assert(merge_flags(ds.skip(i + 1), l_rest) == ds.skip(i + 1)) by {
            if ds.skip(i + 1).len() == 0 {
                assert(merge_flags(ds.skip(i + 1), l_rest) =~= Seq::<(int, Seq<char>)>::empty());
            }
        }
        assert(d_rest =~= seq![ds[i]] + ds.skip(i + 1));
    }
}

/// Merging from a lens before the next diagnostic takes the lens.
proof fn lemma_merge_step_lens(ds: Seq<(int, Seq<char>)>, ls: Seq<int>, i: int, j: int)
    requires
        0 <= i <= ds.len(),
        0 <= j < ls.len(),
        i < ds.len() ==> ls[j] < ds[i].0,
    ensures
        merge_flags(ds.skip(i), ls.skip(j)) == seq![(ls[j], lens_flag())] + merge_flags(ds.skip(i), ls.skip(j + 1)),
{
    let d_rest = ds.skip(i);
    let l_rest = ls.skip(j);
    assert(l_rest[0] == ls[j]);
    assert(l_rest.drop_first() =~= ls.skip(j + 1));
    if i < ds.len() {
        assert(d_rest[0] == ds[i]);
    } else {
        assert(d_rest.len() == 0);
    }
}

/// The line flags of a buffer's diagnostics and code lenses, as a line-specs
/// value (see `merge_flags`), with the numbers of errors, hints,
/// informations and warnings (diagnostics without severity count as warnings).
pub fn gather_line_flags(diagnostics: &Vec<Diagnostic>, lens_lines: &Vec<u32>) -> (res: (String, u32, u32, u32, u32))
    requires
        diagnostics@.len() < u32::MAX,
        forall|k: int| 0 <= k < diagnostics@.len() ==> #[trigger] diagnostics@[k].range.start.line < u32::MAX,
        forall|k: int| 0 <= k < lens_lines@.len() ==> #[trigger] lens_lines@[k] < u32::MAX,
    ensures
        res.0@ == join_spaced(flag_texts(merge_flags(diagnostic_flags(diagnostics@), lens_lines@.map_values(|l: u32| l as int)))),
        res.1 == count_severity(diagnostics@, SeverityClass::Errors),
        res.2 == count_severity(diagnostics@, SeverityClass::Hints),
        res.3 == count_severity(diagnostics@, SeverityClass::Infos),
        res.4 == count_severity(diagnostics@, SeverityClass::Warnings),
{
    let ghost ds = diagnostic_flags(diagnostics@);
    let ghost ls = lens_lines@.map_values(|l: u32| l as int);
    let ghost all = merge_flags(ds, ls);
    let ghost mut done: Seq<(int, Seq<char>)> = Seq::empty();
    let mut out = String::new();
    let mut error_count: u32 = 0;
    let mut hint_count: u32 = 0;
    let mut info_count: u32 = 0;
    let mut warning_count: u32 = 0;
    let mut i: usize = 0;
    let mut j: usize = 0;
    assert(ds.skip(0) =~= ds);
    assert(ls.skip(0) =~= ls);
    assert(diagnostics@.take(0) =~= Seq::<Diagnostic>::empty());
    while i < diagnostics.len() || j < lens_lines.len()
        invariant
            i <= diagnostics.len(),
            j <= lens_lines.len(),
            diagnostics@.len() < u32::MAX,
            forall|k: int| 0 <= k < diagnostics@.len() ==> #[trigger] diagnostics@[k].range.start.line < u32::MAX,
            forall|k: int| 0 <= k < lens_lines@.len() ==> #[trigger] lens_lines@[k] < u32::MAX,
            ds == diagnostic_flags(diagnostics@),
            ls == lens_lines@.map_values(|l: u32| l as int),
            all == merge_flags(ds, ls),
            all == done + merge_flags(ds.skip(i as int), ls.skip(j as int)),
            out@ == join_spaced(flag_texts(done)),
            (i == 0 && j == 0) == (done.len() == 0),
            error_count == count_severity(diagnostics@.take(i as int), SeverityClass::Errors),
            hint_count == count_severity(diagnostics@.take(i as int), SeverityClass::Hints),
            info_count == count_severity(diagnostics@.take(i as int), SeverityClass::Infos),
            warning_count == count_severity(diagnostics@.take(i as int), SeverityClass::Warnings),
            error_count <= i && hint_count <= i && info_count <= i && warning_count <= i,
        decreases diagnostics.len() - i + lens_lines.len() - j,
    {
        let first = i == 0 && j == 0;
        let take_diagnostic = if i < diagnostics.len() && j < lens_lines.len() {
            diagnostics[i].range.start.line <= lens_lines[j]
        } else {
            i < diagnostics.len()
        };
        if take_diagnostic {
            let d = &diagnostics[i];
            let line = d.range.start.line;
            push_flag(&mut out, first, line, Some(d.severity));
            let step_lens = j < lens_lines.len() && lens_lines[j] == line;
            proof {
                assert(ds[i as int] == (line as int, severity_flag(d.severity)));
                if j < lens_lines.len() {
                    assert(ls[j as int] == lens_lines@[j as int] as int);
                }
                lemma_merge_step_diagnostic(ds, ls, i as int, j as int);
                let item = ds[i as int];
                lemma_flag_texts_push(done, item);
                lemma_join_spaced_push(flag_texts(done), flag_text(item));
                done = done.push(item);
                assert(diagnostics@.take(i + 1).drop_last() =~= diagnostics@.take(i as int));
            }
            match d.severity {
                Some(DiagnosticSeverity::Error) => { error_count += 1; },
                Some(DiagnosticSeverity::Hint) => { hint_count += 1; },
                Some(DiagnosticSeverity::Information) => { info_count += 1; },
                Some(DiagnosticSeverity::Warning) | None => { warning_count += 1; },
                Some(DiagnosticSeverity::Other(_)) => {},
            }
            if step_lens {
                j += 1;
            }
            i += 1;
        } else {
            let line = lens_lines[j];
            push_flag(&mut out, first, line, None);
            proof {
                assert(ls[j as int] == line as int);
                if i < diagnostics.len() {
                    assert(ds[i as int].0 == diagnostics@[i as int].range.start.line as int);
                }
                lemma_merge_step_lens(ds, ls, i as int, j as int);
                let item = (line as int, lens_flag());
                lemma_flag_texts_push(done, item);
                lemma_join_spaced_push(flag_texts(done), flag_text(item));
                done = done.push(item);
            }
            j += 1;
        }
    }
    proof {
        assert(diagnostics@.take(i as int) =~= diagnostics@);
        assert(ds.skip(i as int).len() == 0);
        assert(ls.skip(j as int).len() == 0);
        assert(all =~= done);
    }
    (out, error_count, hint_count, info_count, warning_count)
}


/// The counts of `gather_line_flags` count each diagnostic by its own
/// severity: errors those of severity Error, hints those of severity Hint,
/// infos those of severity Information, and warnings those of severity
/// Warning or of none.
pub proof fn lemma_counts_by_severity(ds: Seq<Diagnostic>)
    ensures
        count_severity(ds, SeverityClass::Errors) == ds.filter(|d: Diagnostic| d.severity == Some(DiagnosticSeverity::Error)).len(),
        count_severity(ds, SeverityClass::Hints) == ds.filter(|d: Diagnostic| d.severity == Some(DiagnosticSeverity::Hint)).len(),
        count_severity(ds, SeverityClass::Infos) == ds.filter(|d: Diagnostic| d.severity == Some(DiagnosticSeverity::Information)).len(),
        count_severity(ds, SeverityClass::Warnings) == ds.filter(
            |d: Diagnostic| d.severity == Some(DiagnosticSeverity::Warning) || d.severity is None,
        ).len(),
    decreases ds.len(),
{
    reveal(Seq::filter);
    if ds.len() > 0 {
        lemma_counts_by_severity(ds.drop_last());
    }
}

} // verus!
