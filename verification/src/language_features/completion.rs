//! Completions: the items that servers offer, in the order of their sort
//! texts, as Kakoune's completion option, with what is done when one is
//! selected (its documentation shown, its snippet expanded).

use vstd::prelude::*;
use ropey::Rope;
use crate::capabilities::{str_less, text_less};
use crate::diagnostics::{int_decimal, push_int};
use crate::language_features::signature_help::{find_chars, find_from};
use crate::markdown::{markdown_to_kak, render_markdown, markdown_events};
use crate::markup::{escape_kakoune_markup, markup_escape_spec};
use crate::patterns::{pattern_error, regex_error, regex_replaced, replace_all_matches};
use crate::position::{lsp_range_to_kakoune, range_defined, range_to_kakoune};
use crate::rope::rope_lines;
use crate::strings::{chars_of, decimal, push_char, push_decimal, push_str, str_eq};
use crate::text_edit::join_spaced;
use crate::types::{OffsetEncoding, Range, TextDocumentCompletionParams};
use crate::util::{
    editor_quote, editor_quote_spec, escape_tuple_element, escape_tuple_element_spec, push_replaced, replace_char,
};

verus! {

/// The documentation of an item: plain text, or markdown.
#[derive(Clone, Debug)]
pub enum Documentation {
    PlainText(String),
    Markdown(String),
}

/// What an item edits when it is accepted: a range and the text that
/// replaces it, or a choice between inserting and replacing (of which only
/// the text matters here).
#[derive(Clone, Debug)]
pub enum CompletionTextEdit {
    Edit { range: Range, new_text: String },
    InsertReplace { new_text: String },
}

/// A completion item, as far as the editor shows it: `kind` is the name of
/// its kind (as `Function`).
#[derive(Clone, Debug)]
pub struct CompletionItem {
    pub label: String,
    pub kind: Option<String>,
    pub detail: Option<String>,
    pub documentation: Option<Documentation>,
    pub sort_text: Option<String>,
    pub filter_text: Option<String>,
    pub insert_text: Option<String>,
    /// Whether its insert text is a snippet.
    pub snippet: bool,
    pub text_edit: Option<CompletionTextEdit>,
    /// Whether it has edits to apply besides its own.
    pub has_additional_edits: bool,
}

/// An item offered by a server: the item, whether that server resolves
/// items, and its offset encoding.
#[derive(Clone, Debug)]
pub struct OfferedCompletion {
    pub item: CompletionItem,
    pub resolve_provider: bool,
    pub offset_encoding: OffsetEncoding,
}

// ---------------------------------------------------------------------------
// Order

/// The text by which an item is sorted: its sort text, else its label.
pub open spec fn sort_key(item: CompletionItem) -> Seq<char> {
    match item.sort_text {
        Some(s) => s@,
        None => item.label@,
    }
}

/// `order` with item `i` put after every item whose key is not greater.
pub open spec fn insert_by_key(order: Seq<usize>, items: Seq<OfferedCompletion>, i: usize) -> Seq<usize>
    decreases order.len(),
{
    if order.len() == 0 {
        seq![i]
    } else if !text_less(sort_key(items[i as int].item), sort_key(items[order.last() as int].item)) {
        order.push(i)
    } else {
        insert_by_key(order.drop_last(), items, i).push(order.last())
    }
}

/// The indices of the first `n` items by their sort keys, items with equal
/// keys in the order in which they came.
pub open spec fn completion_order(items: Seq<OfferedCompletion>, n: int) -> Seq<usize>
    decreases n,
{
    if n <= 0 {
        Seq::empty()
    } else {
        insert_by_key(completion_order(items, n - 1), items, (n - 1) as usize)
    }
}

/// The key of an item; see `sort_key`.
fn sort_key_str(item: &CompletionItem) -> (res: &str)
    ensures
        res@ == sort_key(*item),
{
    match &item.sort_text {
        Some(s) => s.as_str(),
        None => item.label.as_str(),
    }
}

/// The items' indices in the order in which they are offered; see
/// `completion_order`.
pub fn order_completions(items: &Vec<OfferedCompletion>) -> (res: Vec<usize>)
    ensures
        res@ == completion_order(items@, items.len() as int),
        forall|k: int| 0 <= k < res.len() ==> res@[k] < items.len(),
{
    let n = items.len();
    let mut order: Vec<usize> = Vec::new();
    let mut i: usize = 0;
    while i < n
        invariant
            i <= n,
            n == items.len(),
            order@ == completion_order(items@, i as int),
            forall|k: int| 0 <= k < order.len() ==> order@[k] < i,
        decreases n - i,
    {
        let key = sort_key_str(&items[i].item);
        let mut p: usize = order.len();
        let mut done = false;
        proof {
            assert(order@.take(p as int) =~= order@);
            assert(order@.skip(p as int) =~= Seq::<usize>::empty());
            assert(insert_by_key(order@, items@, i) + Seq::<usize>::empty() =~= insert_by_key(order@, items@, i));
        }
        while !done && p > 0
            invariant
                p <= order.len(),
                i < n,
                n == items.len(),
                forall|k: int| 0 <= k < order.len() ==> order@[k] < i,
                key@ == sort_key(items@[i as int].item),
                insert_by_key(order@, items@, i) == insert_by_key(order@.take(p as int), items@, i) + order@.skip(p as int),
                done ==> p > 0 && !text_less(key@, sort_key(items@[order@[p - 1] as int].item)),
            decreases 2 * p + (if done { 0int } else { 1int }),
        {
            let prev = order[p - 1];
            if !str_less(key, sort_key_str(&items[prev].item)) {
                done = true;
            } else {
                proof {
                    let t = order@.take(p as int);
                    assert(t.drop_last() =~= order@.take(p - 1));
                    assert(t.last() == prev);
                    assert(order@.skip(p - 1) =~= seq![prev] + order@.skip(p as int));
                    assert(insert_by_key(t, items@, i) == insert_by_key(order@.take(p - 1), items@, i).push(prev));
                    assert(insert_by_key(order@.take(p - 1), items@, i).push(prev) + order@.skip(p as int)
                        =~= insert_by_key(order@.take(p - 1), items@, i) + order@.skip(p - 1));
                }
                p = p - 1;
            }
        }
        proof {
            let t = order@.take(p as int);
            if p == 0 {
                assert(t =~= Seq::<usize>::empty());
                assert(seq![i] + order@.skip(0) =~= order@.insert(0, i));
            } else {
                assert(t.last() == order@[p - 1]);
                assert(insert_by_key(t, items@, i) == t.push(i));
                assert(t.push(i) + order@.skip(p as int) =~= order@.insert(p as int, i));
            }
        }
        order.insert(p, i);
        i = i + 1;
    }
    order
}

// ---------------------------------------------------------------------------
// Documentation

/// The text shown beside the menu for an item: its detail, a rule when
/// documentation follows, and the documentation (markdown rendered, plain
/// text escaped).
pub open spec fn menu_text(item: CompletionItem) -> Seq<char> {
    (match item.detail {
        Some(d) => markup_escape_spec(d@) + (if item.documentation is Some { "\n\n---\n\n"@ } else { Seq::empty() }),
        None => Seq::empty(),
    }) + match item.documentation {
        Some(Documentation::PlainText(s)) => markup_escape_spec(s@),
        Some(Documentation::Markdown(s)) => render_markdown(markdown_events(s@)),
        None => Seq::empty(),
    }
}

/// The text shown beside the menu; see `menu_text`.
pub fn completion_menu_text(item: &CompletionItem) -> (res: String)
    ensures
        res@ == menu_text(*item),
{
    let mut out = String::new();
    match &item.detail {
        Some(d) => {
            let e = escape_kakoune_markup(d.as_str());
            push_str(&mut out, e.as_str());
            if item.documentation.is_some() {
                push_str(&mut out, "\n\n---\n\n");
            }
        },
        None => {},
    }
    match &item.documentation {
        Some(Documentation::PlainText(s)) => {
            let e = escape_kakoune_markup(s.as_str());
            push_str(&mut out, e.as_str());
        },
        Some(Documentation::Markdown(s)) => {
            let m = markdown_to_kak(s.as_str());
            push_str(&mut out, m.as_str());
        },
        None => {},
    }
    assert(out@ =~= menu_text(*item));
    out
}

/// The info box that shows an item's documentation when it is resolved.
pub open spec fn resolved_info_text(item: CompletionItem) -> Seq<char> {
    "info -markup -style menu -- %\u{a7}"@ + replace_char(menu_text(item), '\u{a7}', "\u{a7}\u{a7}"@) + "\u{a7}"@
}

/// The info box with an item's documentation; see `resolved_info_text`.
pub fn resolved_item_info(item: &CompletionItem) -> (res: String)
    ensures
        res@ == resolved_info_text(*item),
{
    let m = completion_menu_text(item);
    let mut out = String::new();
    push_str(&mut out, "info -markup -style menu -- %\u{a7}");
    push_replaced(&mut out, m.as_str(), '\u{a7}', "\u{a7}\u{a7}");
    push_str(&mut out, "\u{a7}");
    out
}


// ---------------------------------------------------------------------------
// Widths

/// How many columns a terminal gives a text, as `unicode_width` counts them.
pub uninterp spec fn display_width(s: Seq<char>) -> nat;

/// `UnicodeWidthStr::width`: the columns of a text (characters of ambiguous
/// width count as one). Stated only as the named result `display_width`.
#[verifier::external_body]
fn label_width(s: &str) -> (res: usize)
    ensures
        res == display_width(s@),
{
    unicode_width::UnicodeWidthStr::width(s)
}

/// The widest label among the items at `order`.
pub open spec fn widest(items: Seq<OfferedCompletion>, order: Seq<usize>) -> nat
    decreases order.len(),
{
    if order.len() == 0 {
        0
    } else {
        let rest = widest(items, order.drop_last());
        let w = display_width(items[order.last() as int].item.label@);
        if w > rest { w } else { rest }
    }
}

/// `n` blanks.
pub open spec fn blanks(n: nat) -> Seq<char> {
    Seq::new(n, |i: int| ' ')
}

// ---------------------------------------------------------------------------
// The offset of the completed word

/// Whether the start of the word can still be told from the items' edits,
/// and the column it starts at, once told.
pub struct InferState {
    pub offset: Option<u32>,
    pub can_infer: bool,
}

/// The state after one more item: an item whose edit replaces a range on
/// the cursor's line (as Kakoune replaces the word left of the cursor) tells
/// the column at which its range starts; the word's start is known while all
/// of them agree. Any other item, or two that disagree, leave it unknown.
pub open spec fn infer_step(st: InferState, item: CompletionItem, text: Option<Rope>, enc: OffsetEncoding, line: u32) -> InferState {
    match (item.text_edit, text) {
        (Some(CompletionTextEdit::Edit { range, .. }), Some(t)) => {
            let r = range_to_kakoune(range, rope_lines(t), enc);
            let st1 = if st.can_infer {
                match st.offset {
                    None => InferState { offset: Some(r.start.column), can_infer: true },
                    Some(o) => if o != r.start.column {
                        InferState { offset: None, can_infer: false }
                    } else {
                        st
                    },
                }
            } else {
                st
            };
            if r.start.line == line && r.end.line == line {
                st1
            } else {
                InferState { offset: None, can_infer: false }
            }
        },
        _ => InferState { offset: None, can_infer: false },
    }
}

/// The state after the items at `order`, from the first on.
pub open spec fn infer_all(items: Seq<OfferedCompletion>, order: Seq<usize>, text: Option<Rope>, line: u32) -> InferState
    decreases order.len(),
{
    if order.len() == 0 {
        InferState { offset: None, can_infer: true }
    } else {
        let k = order.last() as int;
        infer_step(infer_all(items, order.drop_last(), text, line), items[k].item, text, items[k].offset_encoding, line)
    }
}

// ---------------------------------------------------------------------------
// Entries

/// A tab stop of a snippet: `$` and a number.
pub const SNIPPET_TABSTOP: &'static str = "\\$(?P<i>\\d+)";

/// A placeholder of a snippet: `${`, a number, a colon, the placeholder text, `}`.
pub const SNIPPET_PLACEHOLDER: &'static str = "\\$\\{(?P<i>\\d+):?(?P<placeholder>[^}]+)\\}";

/// A metacharacter of a snippet escaped by a backslash.
pub const SNIPPET_ESCAPED: &'static str = "\\\\([$}\\\\,|])";

/// Every match of a pattern replaced, when the pattern compiles (the
/// snippet patterns do); the text as it is otherwise.
pub open spec fn replaced_or_kept(pattern: Seq<char>, s: Seq<char>, replacement: Seq<char>) -> Seq<char> {
    if regex_error(pattern) is None {
        regex_replaced(pattern, s, replacement)
    } else {
        s
    }
}

/// The text a snippet shows in the menu: tab stops dropped, placeholders
/// replaced by their text, escaped metacharacters unescaped, on one line.
pub open spec fn snippet_menu_text(s: Seq<char>) -> Seq<char> {
    replace_char(
        replaced_or_kept(
            SNIPPET_ESCAPED@,
            replaced_or_kept(SNIPPET_PLACEHOLDER@, replaced_or_kept(SNIPPET_TABSTOP@, s, Seq::empty()), "$placeholder"@),
            "$1"@,
        ),
        '\n',
        Seq::empty(),
    )
}

/// A snippet that ends at a final tab stop: `$0` added unless it has one.
pub open spec fn with_final_tabstop(s: Seq<char>) -> Seq<char> {
    if find_from(s, "$0"@, 0) is Some || find_from(s, "${0"@, 0) is Some {
        s
    } else {
        s + "$0"@
    }
}

/// What is run when the item at position `index` is selected: the
/// selection is reported, the item resolved (or its other edits applied when
/// it is accepted) when there is a need, and its documentation shown.
pub open spec fn on_select_text(index: int, c: OfferedCompletion) -> Seq<char> {
    let maybe_resolve = if c.resolve_provider {
        "lsp-completion-item-resolve\n"@
    } else if c.item.has_additional_edits {
        "lsp-completion-on-accept %{ lsp-completion-item-resolve-request false }\n"@
    } else {
        Seq::empty()
    };
    "lsp-completion-item-selected "@ + decimal(index as nat) + seq!['\n'] + maybe_resolve + "info -markup -style menu -- %\u{a7}"@
        + replace_char(menu_text(c.item), '\u{a7}', "\u{a7}\u{a7}"@) + "\u{a7}"@
}

/// The menu text of an item: its label (escaped for markup) and, for an item
/// with a kind, blanks up to the widest label and the kind.
pub open spec fn menu_entry(item: CompletionItem, width: nat) -> Seq<char> {
    match item.kind {
        Some(k) => markup_escape_spec(item.label@) + blanks((width - display_width(item.label@)) as nat) + " {MenuInfo}"@ + k@,
        None => markup_escape_spec(item.label@),
    }
}

/// A completion entry: what is inserted, what is run on selection, and the
/// menu text, each escaped for a tuple element, as one quoted word.
pub open spec fn completion_entry(insert: Seq<char>, on_select: Seq<char>, menu: Seq<char>) -> Seq<char> {
    editor_quote_spec(
        escape_tuple_element_spec(insert) + seq!['|'] + escape_tuple_element_spec(on_select) + seq!['|']
            + escape_tuple_element_spec(menu),
    )
}

/// The text an item inserts: that of its edit, else its insert text, else
/// its label.
pub open spec fn eventual_insert_text(item: CompletionItem) -> Seq<char> {
    match item.text_edit {
        Some(CompletionTextEdit::Edit { new_text, .. }) => new_text@,
        Some(CompletionTextEdit::InsertReplace { new_text }) => new_text@,
        None => specified_insert_text(item),
    }
}

/// An item's insert text, else its label.
pub open spec fn specified_insert_text(item: CompletionItem) -> Seq<char> {
    match item.insert_text {
        Some(s) => s@,
        None => item.label@,
    }
}

/// The entry of the item at position `index`. A snippet (when snippets are
/// supported) shows its text as the menu shows it and is expanded when
/// accepted. Otherwise, where the filter text differs from the text to
/// insert, Kakoune filters by the former and the latter is inserted when the
/// item is accepted.
pub open spec fn entry_text(index: int, c: OfferedCompletion, width: nat, snippet_support: bool) -> Seq<char> {
    let on_select = on_select_text(index, c);
    let menu = menu_entry(c.item, width);
    let eventual = eventual_insert_text(c.item);
    if snippet_support && c.item.snippet {
        completion_entry(
            snippet_menu_text(specified_insert_text(c.item)),
            on_select + "\nlsp-snippets-insert-completion "@ + editor_quote_spec(with_final_tabstop(eventual)),
            menu,
        )
    } else {
        let filter = match c.item.filter_text {
            Some(f) => f@,
            None => c.item.label@,
        };
        if filter != eventual {
            completion_entry(filter, on_select + "\nlsp-snippets-insert-completion "@ + editor_quote_spec(eventual + "$0"@), menu)
        } else {
            completion_entry(eventual, on_select, menu)
        }
    }
}

/// The command that offers the items (none when there are none): the
/// completion option, at the cursor's line and the column where the
/// completed word starts (as the items' edits tell it, else as the editor
/// said), for the buffer's version, and its timestamp.
pub open spec fn completion_command(
    items: Seq<OfferedCompletion>,
    params: TextDocumentCompletionParams,
    version: i32,
    text: Option<Rope>,
    snippet_support: bool,
) -> Option<Seq<char>> {
    if items.len() == 0 {
        None
    } else {
        let order = completion_order(items, items.len() as int);
        let width = widest(items, order);
        let entries = Seq::new(order.len(), |k: int| entry_text(k, items[order[k] as int], width, snippet_support));
        let offset = match infer_all(items, order, text, params.position.line).offset {
            Some(o) => o,
            None => params.completion.offset,
        };
        let v = int_decimal(version as int);
        Some(
            "evaluate-commands -- "@ + editor_quote_spec(
                "set-option window lsp_completions "@ + decimal(params.position.line as nat) + seq!['.'] + decimal(
                    offset as nat,
                ) + seq!['@'] + v + seq![' '] + join_spaced(entries) + "\nset-option window lsp_completions_timestamp "@ + v,
            ),
        )
    }
}


/// Every match of a pattern replaced; see `replaced_or_kept`.
fn replace_or_keep(pattern: &str, s: &str, replacement: &str) -> (res: String)
    ensures
        res@ == replaced_or_kept(pattern@, s@, replacement@),
{
    match pattern_error(pattern) {
        Some(_) => {
            let mut out = String::new();
            push_str(&mut out, s);
            out
        },
        None => replace_all_matches(pattern, s, replacement),
    }
}

/// The menu text of a snippet; see `snippet_menu_text`.
fn snippet_text(s: &str) -> (res: String)
    ensures
        res@ == snippet_menu_text(s@),
{
    let a = replace_or_keep(SNIPPET_TABSTOP, s, "");
    let b = replace_or_keep(SNIPPET_PLACEHOLDER, a.as_str(), "$placeholder");
    let c = replace_or_keep(SNIPPET_ESCAPED, b.as_str(), "$1");
    let mut out = String::new();
    proof {
        reveal_strlit("");
        assert(""@ =~= Seq::<char>::empty());
    }
    push_replaced(&mut out, c.as_str(), '\n', "");
    out
}

/// Whether a text holds another; see `find_from`.
fn holds(s: &str, t: &str) -> (res: bool)
    ensures
        res == (find_from(s@, t@, 0) is Some),
{
    let x = chars_of(s);
    let y = chars_of(t);
    find_chars(&x, &y).is_some()
}

/// A snippet ending at a final tab stop; see `with_final_tabstop`.
fn snippet_with_final_tabstop(s: &str) -> (res: String)
    ensures
        res@ == with_final_tabstop(s@),
{
    let mut out = String::new();
    push_str(&mut out, s);
    if !holds(s, "$0") && !holds(s, "${0") {
        push_str(&mut out, "$0");
    }
    out
}

/// The widest label; see `widest`.
fn widest_label(items: &Vec<OfferedCompletion>, order: &Vec<usize>) -> (res: usize)
    requires
        forall|k: int| 0 <= k < order.len() ==> order@[k] < items.len(),
    ensures
        res == widest(items@, order@),
{
    let mut w: usize = 0;
    let mut t: usize = 0;
    while t < order.len()
        invariant
            t <= order.len(),
            forall|k: int| 0 <= k < order.len() ==> order@[k] < items.len(),
            w == widest(items@, order@.take(t as int)),
        decreases order.len() - t,
    {
        assert(order@.take(t + 1).drop_last() =~= order@.take(t as int));
        let x = label_width(items[order[t]].item.label.as_str());
        if x > w {
            w = x;
        }
        t = t + 1;
    }
    assert(order@.take(t as int) =~= order@);
    w
}

/// What is run when an item is selected; see `on_select_text`.
fn on_select(index: usize, c: &OfferedCompletion) -> (res: String)
    ensures
        res@ == on_select_text(index as int, *c),
{
    let mut out = String::new();
    push_str(&mut out, "lsp-completion-item-selected ");
    push_decimal(&mut out, index as u64);
    push_char(&mut out, '\n');
    if c.resolve_provider {
        push_str(&mut out, "lsp-completion-item-resolve\n");
    } else if c.item.has_additional_edits {
        push_str(&mut out, "lsp-completion-on-accept %{ lsp-completion-item-resolve-request false }\n");
    }
    push_str(&mut out, "info -markup -style menu -- %\u{a7}");
    let m = completion_menu_text(&c.item);
    push_replaced(&mut out, m.as_str(), '\u{a7}', "\u{a7}\u{a7}");
    push_str(&mut out, "\u{a7}");
    assert(out@ =~= on_select_text(index as int, *c));
    out
}

/// The menu text of an item; see `menu_entry`.
fn menu_entry_text(item: &CompletionItem, width: usize) -> (res: String)
    requires
        width >= display_width(item.label@),
    ensures
        res@ == menu_entry(*item, width as nat),
{
    let label = escape_kakoune_markup(item.label.as_str());
    match &item.kind {
        Some(k) => {
            let mut out = String::new();
            push_str(&mut out, label.as_str());
            let pad = width - label_width(item.label.as_str());
            let mut i: usize = 0;
            while i < pad
                invariant
                    i <= pad,
                    out@ == markup_escape_spec(item.label@) + blanks(i as nat),
                decreases pad - i,
            {
                push_char(&mut out, ' ');
                assert(blanks((i + 1) as nat) =~= blanks(i as nat).push(' '));
                i = i + 1;
            }
            push_str(&mut out, " {MenuInfo}");
            push_str(&mut out, k.as_str());
            out
        },
        None => label,
    }
}

/// A completion entry; see `completion_entry`.
fn entry(insert: &str, on_select: &str, menu: &str) -> (res: String)
    ensures
        res@ == completion_entry(insert@, on_select@, menu@),
{
    let mut word = String::new();
    let a = escape_tuple_element(insert);
    push_str(&mut word, a.as_str());
    push_char(&mut word, '|');
    let b = escape_tuple_element(on_select);
    push_str(&mut word, b.as_str());
    push_char(&mut word, '|');
    let c = escape_tuple_element(menu);
    push_str(&mut word, c.as_str());
    assert(word@ =~= escape_tuple_element_spec(insert@) + seq!['|'] + escape_tuple_element_spec(on_select@) + seq!['|']
        + escape_tuple_element_spec(menu@));
    editor_quote(word.as_str())
}

/// The entry of an item; see `entry_text`.
fn item_entry(index: usize, c: &OfferedCompletion, width: usize, snippet_support: bool) -> (res: String)
    requires
        width >= display_width(c.item.label@),
    ensures
        res@ == entry_text(index as int, *c, width as nat, snippet_support),
{
    let select = on_select(index, c);
    let menu = menu_entry_text(&c.item, width);
    let specified: &str = match &c.item.insert_text {
        Some(s) => s.as_str(),
        None => c.item.label.as_str(),
    };
    let eventual: &str = match &c.item.text_edit {
        Some(CompletionTextEdit::Edit { new_text, .. }) => new_text.as_str(),
        Some(CompletionTextEdit::InsertReplace { new_text }) => new_text.as_str(),
        None => specified,
    };
    if snippet_support && c.item.snippet {
        let snippet = snippet_with_final_tabstop(eventual);
        let shown = snippet_text(specified);
        let mut sel = select;
        push_str(&mut sel, "\nlsp-snippets-insert-completion ");
        let q = editor_quote(snippet.as_str());
        push_str(&mut sel, q.as_str());
        entry(shown.as_str(), sel.as_str(), menu.as_str())
    } else {
        let filter: &str = match &c.item.filter_text {
            Some(f) => f.as_str(),
            None => c.item.label.as_str(),
        };
        if !str_eq(filter, eventual) {
            let mut sel = select;
            push_str(&mut sel, "\nlsp-snippets-insert-completion ");
            let mut expanded = String::new();
            push_str(&mut expanded, eventual);
            push_str(&mut expanded, "$0");
            let q = editor_quote(expanded.as_str());
            push_str(&mut sel, q.as_str());
            entry(filter, sel.as_str(), menu.as_str())
        } else {
            entry(eventual, select.as_str(), menu.as_str())
        }
    }
}

/// Whether the items' edits can be read: the range of every edit that
/// replaces a range converts to Kakoune's, where the buffer's text is known.
pub open spec fn edits_convertible(items: Seq<OfferedCompletion>, text: Option<Rope>) -> bool {
    forall|k: int|
        0 <= k < items.len() ==> match (#[trigger] items[k].item.text_edit, text) {
            (Some(CompletionTextEdit::Edit { range, .. }), Some(t)) => range_defined(range, rope_lines(t), items[k].offset_encoding),
            _ => true,
        }
}

/// One more item's part in telling where the word starts; see `infer_step`.
fn infer_next(st: (Option<u32>, bool), item: &CompletionItem, text: Option<&Rope>, enc: OffsetEncoding, line: u32) -> (res: (Option<u32>, bool))
    requires
        match (item.text_edit, text) {
            (Some(CompletionTextEdit::Edit { range, .. }), Some(t)) => range_defined(range, rope_lines(*t), enc),
            _ => true,
        },
    ensures
        (InferState { offset: res.0, can_infer: res.1 }) == infer_step(
            InferState { offset: st.0, can_infer: st.1 },
            *item,
            match text { Some(t) => Some(*t), None => None },
            enc,
            line,
        ),
{
    match (&item.text_edit, text) {
        (Some(CompletionTextEdit::Edit { range, .. }), Some(t)) => {
            let r = lsp_range_to_kakoune(range, t, enc);
            let st1 = if st.1 {
                match st.0 {
                    None => (Some(r.start.column), true),
                    Some(o) => if o != r.start.column {
                        (None, false)
                    } else {
                        st
                    },
                }
            } else {
                st
            };
            if r.start.line == line && r.end.line == line {
                st1
            } else {
                (None, false)
            }
        },
        _ => (None, false),
    }
}

/// The command that offers the items; see `completion_command`.
pub fn editor_completion(
    items: &Vec<OfferedCompletion>,
    params: &TextDocumentCompletionParams,
    version: i32,
    text: Option<&Rope>,
    snippet_support: bool,
) -> (res: Option<String>)
    requires
        edits_convertible(items@, match text { Some(t) => Some(*t), None => None }),
    ensures
        match completion_command(items@, *params, version, match text { Some(t) => Some(*t), None => None }, snippet_support) {
            Some(c) => res matches Some(r) && r@ == c,
            None => res is None,
        },
{
    if items.len() == 0 {
        return None;
    }
    let ghost tv = match text { Some(t) => Some(*t), None => None::<Rope> };
    let order = order_completions(items);
    let width = widest_label(items, &order);
    let line = params.position.line;
    let ghost entries = Seq::new(order@.len(), |k: int| entry_text(k, items@[order@[k] as int], width as nat, snippet_support));
    let mut list = String::new();
    let mut st: (Option<u32>, bool) = (None, true);
    let mut t: usize = 0;
    while t < order.len()
        invariant
            t <= order.len(),
            order@ == completion_order(items@, items.len() as int),
            forall|k: int| 0 <= k < order.len() ==> order@[k] < items.len(),
            width == widest(items@, order@),
            tv == match text { Some(t) => Some(*t), None => None::<Rope> },
            edits_convertible(items@, tv),
            entries == Seq::new(order@.len(), |k: int| entry_text(k, items@[order@[k] as int], width as nat, snippet_support)),
            list@ == join_spaced(entries.take(t as int)),
            (InferState { offset: st.0, can_infer: st.1 }) == infer_all(items@, order@.take(t as int), tv, line),
        decreases order.len() - t,
    {
        let c = &items[order[t]];
        proof {
            lemma_widest_bounds(items@, order@, t as int);
            assert(entries.take(t + 1).drop_last() =~= entries.take(t as int));
            lemma_join_spaced_push(entries.take(t as int), entries[t as int]);
            assert(order@.take(t + 1).drop_last() =~= order@.take(t as int));
            assert(order@.take(t + 1).last() == order@[t as int]);
        }
        let e = item_entry(t, c, width, snippet_support);
        if t > 0 {
            push_char(&mut list, ' ');
        }
        push_str(&mut list, e.as_str());
        st = infer_next(st, &c.item, text, c.offset_encoding, line);
        t = t + 1;
    }
    assert(entries.take(t as int) =~= entries);
    assert(order@.take(t as int) =~= order@);
    let offset = match st.0 {
        Some(o) => o,
        None => params.completion.offset,
    };
    let mut v = String::new();
    push_int(&mut v, version);
    let mut command = String::new();
    push_str(&mut command, "set-option window lsp_completions ");
    push_decimal(&mut command, line as u64);
    push_char(&mut command, '.');
    push_decimal(&mut command, offset as u64);
    push_char(&mut command, '@');
    push_str(&mut command, v.as_str());
    push_char(&mut command, ' ');
    push_str(&mut command, list.as_str());
    push_str(&mut command, "\nset-option window lsp_completions_timestamp ");
    push_str(&mut command, v.as_str());
    assert(command@ =~= "set-option window lsp_completions "@ + decimal(params.position.line as nat) + seq!['.'] + decimal(
        offset as nat,
    ) + seq!['@'] + int_decimal(version as int) + seq![' '] + join_spaced(entries) + "\nset-option window lsp_completions_timestamp "@
        + int_decimal(version as int));
    let mut out = String::new();
    push_str(&mut out, "evaluate-commands -- ");
    let q = editor_quote(command.as_str());
    push_str(&mut out, q.as_str());
    Some(out)
}

proof fn lemma_join_spaced_push(parts: Seq<Seq<char>>, x: Seq<char>)
    ensures
        join_spaced(parts.push(x)) == if parts.len() == 0 { x } else { join_spaced(parts) + seq![' '] + x },
{
    assert(parts.push(x).drop_last() =~= parts);
}

/// The widest label is at least as wide as each label.
proof fn lemma_widest_bounds(items: Seq<OfferedCompletion>, order: Seq<usize>, t: int)
    requires
        0 <= t < order.len(),
    ensures
        widest(items, order) >= display_width(items[order[t] as int].item.label@),
    decreases order.len(),
{
    if t < order.len() - 1 {
        lemma_widest_bounds(items, order.drop_last(), t);
    }
}


// ---------------------------------------------------------------------------
// Resolving the selected item

/// What a request to resolve the selected item leads to.
#[derive(Clone, Copy, Debug, PartialEq, Eq, Structural)]
pub enum ResolveStep {
    /// Nothing: the request is stale, or for another client, or there is
    /// nothing to resolve.
    Ignore,
    /// The item was accepted (the stored items are dropped) and its other
    /// edits are applied.
    ApplyEdits,
    /// The item is to be resolved by its server (when it was accepted, the
    /// stored items are dropped).
    Resolve,
}

/// The step for a request to resolve item `index` of the stored items of
/// the last completion: ignored unless it comes from the client that asked
/// for them, for them (the same timestamp), and names one of them. When the
/// menu's pager is open (the item is only selected), an item with both
/// detail and documentation needs no resolving. An accepted item with edits
/// of its own has them applied.
pub open spec fn resolve_step_for(
    last_client: Option<Seq<char>>,
    client: Option<Seq<char>>,
    timestamp: i32,
    items_timestamp: i32,
    index: u32,
    items: Seq<CompletionItem>,
    pager_active: bool,
) -> ResolveStep {
    if last_client is None || client != last_client || timestamp != items_timestamp || index >= items.len() {
        ResolveStep::Ignore
    } else if pager_active {
        if items[index as int].detail is Some && items[index as int].documentation is Some {
            ResolveStep::Ignore
        } else {
            ResolveStep::Resolve
        }
    } else if items[index as int].has_additional_edits {
        ResolveStep::ApplyEdits
    } else {
        ResolveStep::Resolve
    }
}

fn same_option_str(a: &Option<String>, b: &Option<String>) -> (res: bool)
    ensures
        res == (match (a, b) {
            (Some(x), Some(y)) => x@ == y@,
            (None, None) => true,
            _ => false,
        }),
{
    match (a, b) {
        (Some(x), Some(y)) => str_eq(x.as_str(), y.as_str()),
        (None, None) => true,
        _ => false,
    }
}

/// The step for a request to resolve the selected item; see
/// `resolve_step_for`.
pub fn completion_item_resolve(
    last_client: &Option<String>,
    client: &Option<String>,
    timestamp: i32,
    items_timestamp: i32,
    index: u32,
    items: &Vec<CompletionItem>,
    pager_active: bool,
) -> (res: ResolveStep)
    ensures
        res == resolve_step_for(
            match last_client { Some(c) => Some(c@), None => None },
            match client { Some(c) => Some(c@), None => None },
            timestamp,
            items_timestamp,
            index,
            items@,
            pager_active,
        ),
{
    if last_client.is_none() || !same_option_str(client, last_client) || timestamp != items_timestamp
        || index as usize >= items.len() {
        return ResolveStep::Ignore;
    }
    let item = &items[index as usize];
    if pager_active {
        if item.detail.is_some() && item.documentation.is_some() {
            ResolveStep::Ignore
        } else {
            ResolveStep::Resolve
        }
    } else if item.has_additional_edits {
        ResolveStep::ApplyEdits
    } else {
        ResolveStep::Resolve
    }
}

/// Documentation as values.
pub enum DocumentationView {
    PlainText(Seq<char>),
    Markdown(Seq<char>),
}

pub open spec fn documentation_view(d: Option<Documentation>) -> Option<DocumentationView> {
    match d {
        Some(Documentation::PlainText(s)) => Some(DocumentationView::PlainText(s@)),
        Some(Documentation::Markdown(s)) => Some(DocumentationView::Markdown(s@)),
        None => None,
    }
}

/// What the resolved item leads to.
pub enum ResolvedAction {
    Nothing,
    /// The info box with its documentation, while the menu's pager is open.
    ShowInfo(String),
    /// Its other edits are applied, once it is accepted.
    ApplyEdits,
}

/// What a resolved item leads to: while the pager is open, its
/// documentation is shown unless its detail or its documentation is what the
/// item had before; once it is accepted, its other edits are applied.
pub open spec fn resolved_action_for(
    pager_active: bool,
    old_detail: Option<Seq<char>>,
    old_documentation: Option<DocumentationView>,
    item: CompletionItem,
) -> Option<Seq<char>> {
    if pager_active && !(match item.detail { Some(d) => Some(d@), None => None } == old_detail
        || documentation_view(item.documentation) == old_documentation) {
        Some(resolved_info_text(item))
    } else {
        None
    }
}

fn same_documentation(a: &Option<Documentation>, b: &Option<Documentation>) -> (res: bool)
    ensures
        res == (documentation_view(*a) == documentation_view(*b)),
{
    match (a, b) {
        (Some(Documentation::PlainText(x)), Some(Documentation::PlainText(y))) => str_eq(x.as_str(), y.as_str()),
        (Some(Documentation::Markdown(x)), Some(Documentation::Markdown(y))) => str_eq(x.as_str(), y.as_str()),
        (None, None) => true,
        _ => false,
    }
}

/// What a resolved item leads to; see `resolved_action_for`.
pub fn editor_completion_item_resolve(
    pager_active: bool,
    old_detail: &Option<String>,
    old_documentation: &Option<Documentation>,
    item: &CompletionItem,
) -> (res: ResolvedAction)
    ensures
        match resolved_action_for(
            pager_active,
            match old_detail { Some(d) => Some(d@), None => None },
            documentation_view(*old_documentation),
            *item,
        ) {
            Some(t) => res matches ResolvedAction::ShowInfo(s) && s@ == t,
            None => if pager_active { res is Nothing } else if item.has_additional_edits { res is ApplyEdits } else { res is Nothing },
        },
{
    if pager_active {
        if same_option_str(&item.detail, old_detail) || same_documentation(&item.documentation, old_documentation) {
            ResolvedAction::Nothing
        } else {
            ResolvedAction::ShowInfo(resolved_item_info(item))
        }
    } else if item.has_additional_edits {
        ResolvedAction::ApplyEdits
    } else {
        ResolvedAction::Nothing
    }
}

} // verus!
