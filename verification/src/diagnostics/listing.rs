//! The list of a workspace's diagnostics, shown in a buffer of its own with
//! one diagnostic per entry, and the entry to go to first: the last one of
//! the current buffer that starts at or before the cursor, else its first.

use vstd::prelude::*;
use crate::diagnostics::{
    diagnostic_text, diagnostic_text_spec, format_related_information, join_lines, related_lines, Diagnostic,
    RelatedInformation,
};
use crate::strings::{chars_of, decimal, push_char, push_decimal, push_str, str_eq};
use crate::types::{kakoune_le, KakounePosition};
use crate::util::{editor_quote, editor_quote_spec, path_strip_prefix, short_file_path};

verus! {

/// A diagnostic in the list: where it starts in Kakoune's terms, when that
/// is known; the name of its server; the diagnostic; and its related
/// information.
pub struct ListedDiagnostic {
    pub position: Option<KakounePosition>,
    pub server_name: String,
    pub diagnostic: Diagnostic,
    pub related: Vec<RelatedInformation>,
}

/// The diagnostics of a file.
pub struct FileDiagnostics {
    pub path: String,
    pub diagnostics: Vec<ListedDiagnostic>,
}

/// How many line feeds a text holds.
pub open spec fn newline_count(s: Seq<char>) -> nat
    decreases s.len(),
{
    if s.len() == 0 {
        0
    } else {
        newline_count(s.drop_last()) + (if s.last() == '\n' { 1nat } else { 0nat })
    }
}

/// The related information of a diagnostic, each on a line of its own.
pub open spec fn related_text(infos: Seq<RelatedInformation>, label: Option<Seq<char>>) -> Seq<char> {
    if infos.len() == 0 {
        Seq::empty()
    } else {
        seq!['\n'] + join_lines(related_lines(infos, label))
    }
}

/// The entry of a diagnostic: `path:line:column: ` and its one-line text,
/// then its related information, labelled with the server's name when the
/// file has more than one diagnostic; an entry of several lines ends with a
/// line feed, so that a blank line follows it. An empty entry when its
/// position is not known.
pub open spec fn listed_text(shown: Seq<char>, e: ListedDiagnostic, labelled: bool) -> Seq<char> {
    match e.position {
        None => Seq::empty(),
        Some(p) => {
            let label = if labelled { Some(e.server_name@) } else { None };
            let base = shown + seq![':'] + decimal(p.line as nat) + seq![':'] + decimal(p.column as nat) + ": "@
                + diagnostic_text_spec(e.diagnostic, label, false) + related_text(e.related@, label);
            if newline_count(base) > 0 {
                base.push('\n')
            } else {
                base
            }
        },
    }
}

/// The list so far: its entries, the line on which the next entry starts,
/// and the line of the entry to go to, if one was found.
pub struct Listing {
    pub texts: Seq<Seq<char>>,
    pub line: int,
    pub goto: Option<int>,
}

/// The list with one more entry. An entry of the current buffer that starts
/// at or before the cursor (or the first of the buffer) becomes the one to go
/// to.
pub open spec fn list_step(
    st: Listing,
    shown: Seq<char>,
    in_buffer: bool,
    e: ListedDiagnostic,
    labelled: bool,
    cursor: KakounePosition,
) -> Listing {
    let t = listed_text(shown, e, labelled);
    match e.position {
        None => Listing { texts: st.texts.push(t), line: st.line + 1, goto: st.goto },
        Some(p) => Listing {
            texts: st.texts.push(t),
            line: st.line + 1 + newline_count(t),
            goto: if in_buffer && (st.goto is None || kakoune_le(p, cursor)) {
                Some(st.line)
            } else {
                st.goto
            },
        },
    }
}

/// The list with the first `k` diagnostics of a file.
pub open spec fn list_entries(
    st: Listing,
    f: FileDiagnostics,
    shown: Seq<char>,
    in_buffer: bool,
    cursor: KakounePosition,
    k: int,
) -> Listing
    decreases k,
{
    if k <= 0 {
        st
    } else {
        list_step(
            list_entries(st, f, shown, in_buffer, cursor, k - 1),
            shown,
            in_buffer,
            f.diagnostics@[k - 1],
            f.diagnostics.len() > 1,
            cursor,
        )
    }
}

/// The list of the first `n` files' diagnostics, each file's path shown as
/// `shown` says.
pub open spec fn list_files(
    files: Seq<FileDiagnostics>,
    shown: Seq<Seq<char>>,
    buffile: Seq<char>,
    cursor: KakounePosition,
    n: int,
) -> Listing
    decreases n,
{
    if n <= 0 {
        Listing { texts: Seq::empty(), line: 1, goto: None }
    } else {
        let f = files[n - 1];
        list_entries(list_files(files, shown, buffile, cursor, n - 1), f, shown[n - 1], f.path@ == buffile, cursor, f.diagnostics.len() as int)
    }
}

/// The command that shows the list, relative to the project root, and goes
/// to the chosen entry (the first line when there is none).
pub open spec fn diagnostics_list_command(root: Seq<char>, listing: Listing) -> Seq<char> {
    "lsp-show-goto-buffer *diagnostics* lsp-diagnostics "@ + editor_quote_spec(root) + seq![' '] + editor_quote_spec(
        join_lines(listing.texts),
    ) + "\nlsp-initial-goto-position "@ + decimal(
        (match listing.goto {
            Some(g) => g,
            None => 1,
        }) as nat,
    )
}

/// A path as the list shows it: relative to the project root where it lies
/// inside it.
pub open spec fn shown_path(path: Seq<char>, root: Seq<char>) -> Seq<char> {
    match path_strip_prefix(path, root) {
        Some(r) => r,
        None => path,
    }
}

proof fn lemma_list_entries_grows(st: Listing, f: FileDiagnostics, shown: Seq<char>, in_buffer: bool, cursor: KakounePosition, k: int, m: int)
    requires
        0 <= k <= m,
    ensures
        list_entries(st, f, shown, in_buffer, cursor, k).line <= list_entries(st, f, shown, in_buffer, cursor, m).line,
        st.line <= list_entries(st, f, shown, in_buffer, cursor, k).line,
    decreases m,
{
    if m > 0 {
        if k < m {
            lemma_list_entries_grows(st, f, shown, in_buffer, cursor, k, m - 1);
        }
        lemma_list_entries_grows(st, f, shown, in_buffer, cursor, if k < m { k } else { m - 1 }, m - 1);
    }
}

proof fn lemma_list_files_grows(files: Seq<FileDiagnostics>, shown: Seq<Seq<char>>, buffile: Seq<char>, cursor: KakounePosition, k: int, m: int)
    requires
        0 <= k <= m,
    ensures
        list_files(files, shown, buffile, cursor, k).line <= list_files(files, shown, buffile, cursor, m).line,
        1 <= list_files(files, shown, buffile, cursor, k).line,
    decreases m,
{
    if m > 0 {
        let f = files[m - 1];
        let prev = list_files(files, shown, buffile, cursor, m - 1);
        lemma_list_entries_grows(prev, f, shown[m - 1], f.path@ == buffile, cursor, 0, f.diagnostics.len() as int);
        lemma_list_files_grows(files, shown, buffile, cursor, if k < m { k } else { m - 1 }, m - 1);
    }
}

/// How many line feeds a text holds; see `newline_count`.
fn count_newlines(s: &str) -> (res: usize)
    ensures
        res == newline_count(s@),
{
    let chars = chars_of(s);
    let mut count: usize = 0;
    let mut i: usize = 0;
    while i < chars.len()
        invariant
            i <= chars.len(),
            chars@ == s@,
            count == newline_count(s@.take(i as int)),
            count <= i,
        decreases chars.len() - i,
    {
        assert(s@.take(i + 1).drop_last() =~= s@.take(i as int));
        if chars[i] == '\n' {
            count = count + 1;
        }
        i = i + 1;
    }
    assert(s@.take(i as int) =~= s@);
    count
}

/// The entry of a diagnostic; see `listed_text`.
fn listed_entry(shown: &str, e: &ListedDiagnostic, labelled: bool) -> (res: String)
    ensures
        res@ == listed_text(shown@, *e, labelled),
{
    match e.position {
        None => String::new(),
        Some(p) => {
            let label: Option<&str> = if labelled { Some(e.server_name.as_str()) } else { None };
            let ghost label_view = if labelled { Some(e.server_name@) } else { None };
            assert(label_view == match label { Some(n) => Some(n@), None => None });
            let mut out = String::new();
            push_str(&mut out, shown);
            push_char(&mut out, ':');
            push_decimal(&mut out, p.line as u64);
            push_char(&mut out, ':');
            push_decimal(&mut out, p.column as u64);
            push_str(&mut out, ": ");
            let t = diagnostic_text(&e.diagnostic, label, false);
            push_str(&mut out, t.as_str());
            match format_related_information(&e.related, label) {
                Some(r) => push_str(&mut out, r.as_str()),
                None => {},
            }
            let ghost base = shown@ + seq![':'] + decimal(p.line as nat) + seq![':'] + decimal(p.column as nat) + ": "@
                + diagnostic_text_spec(e.diagnostic, label_view, false) + related_text(e.related@, label_view);
            assert(out@ =~= base);
            if count_newlines(out.as_str()) > 0 {
                push_char(&mut out, '\n');
            }
            out
        },
    }
}

/// The command that shows the list of diagnostics, with each file's path
/// shown as `shown_paths` says; see `diagnostics_list_command`.
pub fn diagnostics_listing(
    files: &Vec<FileDiagnostics>,
    shown_paths: &Vec<String>,
    buffile: &str,
    cursor: KakounePosition,
    main_root: &str,
) -> (res: String)
    requires
        shown_paths.len() == files.len(),
        list_files(files@, shown_paths@.map_values(|s: String| s@), buffile@, cursor, files.len() as int).line
            <= usize::MAX,
    ensures
        res@ == diagnostics_list_command(
            main_root@,
            list_files(files@, shown_paths@.map_values(|s: String| s@), buffile@, cursor, files.len() as int),
        ),
{
    let ghost shown = shown_paths@.map_values(|s: String| s@);
    let ghost total = list_files(files@, shown, buffile@, cursor, files.len() as int);
    let mut content = String::new();
    let mut any = false;
    let mut line: usize = 1;
    let mut goto: Option<usize> = None;
    let ghost mut st = Listing { texts: Seq::empty(), line: 1, goto: None };
    let mut fi: usize = 0;
    while fi < files.len()
        invariant
            fi <= files.len(),
            shown_paths.len() == files.len(),
            shown == shown_paths@.map_values(|s: String| s@),
            total == list_files(files@, shown, buffile@, cursor, files.len() as int),
            total.line <= usize::MAX,
            st == list_files(files@, shown, buffile@, cursor, fi as int),
            content@ == join_lines(st.texts),
            any == (st.texts.len() > 0),
            line == st.line,
            1 <= st.line,
            goto == match st.goto { Some(g) => Some(g as usize), None => None::<usize> },
            match st.goto { Some(g) => 1 <= g <= usize::MAX, None => true },
        decreases files.len() - fi,
    {
        let f = &files[fi];
        let in_buffer = str_eq(f.path.as_str(), buffile);
        let shown_path = shown_paths[fi].as_str();
        let labelled = f.diagnostics.len() > 1;
        let ghost start = st;
        proof {
            lemma_list_files_grows(files@, shown, buffile@, cursor, fi + 1, files.len() as int);
            lemma_list_entries_grows(start, *f, shown[fi as int], in_buffer, cursor, 0, f.diagnostics.len() as int);
        }
        let mut k: usize = 0;
        while k < f.diagnostics.len()
            invariant
                k <= f.diagnostics.len(),
                f == files@[fi as int],
                shown_path@ == shown[fi as int],
                labelled == (f.diagnostics.len() > 1),
                list_entries(start, *f, shown[fi as int], in_buffer, cursor, f.diagnostics.len() as int).line
                    <= usize::MAX,
                st == list_entries(start, *f, shown[fi as int], in_buffer, cursor, k as int),
                content@ == join_lines(st.texts),
                any == (st.texts.len() > 0),
                line == st.line,
                goto == match st.goto { Some(g) => Some(g as usize), None => None::<usize> },
                match st.goto { Some(g) => 1 <= g <= usize::MAX, None => true },
                1 <= start.line,
                start.line <= st.line,
            decreases f.diagnostics.len() - k,
        {
            let e = &f.diagnostics[k];
            proof {
                lemma_list_entries_grows(start, *f, shown[fi as int], in_buffer, cursor, k + 1, f.diagnostics.len() as int);
            }
            let t = listed_entry(shown_path, e, labelled);
            let ghost next = list_step(st, shown[fi as int], in_buffer, *e, labelled, cursor);
            assert(next == list_entries(start, *f, shown[fi as int], in_buffer, cursor, k + 1));
            if any {
                push_char(&mut content, '\n');
            }
            push_str(&mut content, t.as_str());
            proof {
                let texts = st.texts.push(t@);
                assert(texts.drop_last() =~= st.texts);
                if st.texts.len() == 0 {
                    assert(join_lines(texts) == t@);
                }
            }
            any = true;
            match e.position {
                None => {
                    line = line + 1;
                },
                Some(p) => {
                    let before = p.line < cursor.line || (p.line == cursor.line && p.column <= cursor.column);
                    if in_buffer && (goto.is_none() || before) {
                        goto = Some(line);
                    }
                    let n = count_newlines(t.as_str());
                    line = line + 1 + n;
                },
            }
            proof {
                st = next;
            }
            k = k + 1;
        }
        proof {
            lemma_list_files_grows(files@, shown, buffile@, cursor, fi + 1, files.len() as int);
        }
        fi = fi + 1;
    }
    let mut out = String::new();
    push_str(&mut out, "lsp-show-goto-buffer *diagnostics* lsp-diagnostics ");
    let r = editor_quote(main_root);
    push_str(&mut out, r.as_str());
    push_char(&mut out, ' ');
    let c = editor_quote(content.as_str());
    push_str(&mut out, c.as_str());
    push_str(&mut out, "\nlsp-initial-goto-position ");
    match goto {
        Some(g) => push_decimal(&mut out, g as u64),
        None => push_decimal(&mut out, 1),
    }
    assert(out@ =~= diagnostics_list_command(main_root@, st));
    out
}

/// The command that shows the list of a workspace's diagnostics, each
/// file's path relative to the project root where it lies inside it; see
/// `diagnostics_listing`.
pub fn editor_diagnostics(files: &Vec<FileDiagnostics>, buffile: &str, cursor: KakounePosition, main_root: &str) -> (res: String)
    requires
        list_files(
            files@,
            files@.map_values(|f: FileDiagnostics| shown_path(f.path@, main_root@)),
            buffile@,
            cursor,
            files.len() as int,
        ).line <= usize::MAX,
    ensures
        res@ == diagnostics_list_command(
            main_root@,
            list_files(
                files@,
                files@.map_values(|f: FileDiagnostics| shown_path(f.path@, main_root@)),
                buffile@,
                cursor,
                files.len() as int,
            ),
        ),
{
    let mut shown: Vec<String> = Vec::new();
    let mut i: usize = 0;
    while i < files.len()
        invariant
            i <= files.len(),
            shown@.map_values(|s: String| s@) == files@.take(i as int).map_values(
                |f: FileDiagnostics| shown_path(f.path@, main_root@),
            ),
        decreases files.len() - i,
    {
        let p = short_file_path(files[i].path.as_str(), main_root);
        let mut s = String::new();
        push_str(&mut s, p);
        let ghost before = shown@;
        shown.push(s);
        proof {
            assert(shown@.map_values(|s: String| s@) =~= before.map_values(|s: String| s@).push(s@));
            assert(files@.take(i + 1).map_values(|f: FileDiagnostics| shown_path(f.path@, main_root@)) =~= files@.take(
                i as int,
            ).map_values(|f: FileDiagnostics| shown_path(f.path@, main_root@)).push(shown_path(files@[i as int].path@, main_root@)));
        }
        i = i + 1;
    }
    assert(files@.take(i as int) =~= files@);
    diagnostics_listing(files, &shown, buffile, cursor, main_root)
}

} // verus!
