//! What the language servers offer, and the report of the editor commands
//! that each of them supports.

use vstd::prelude::*;
use crate::strings::{chars_of, push_str};
use crate::util::{editor_escape, editor_escape_spec};
use crate::types::OffsetEncoding;
use crate::strings::str_eq;

verus! {

/// How a server announces support for a request: not at all, by a flag, or
/// with options (which means it supports it).
#[derive(Clone, Copy, Debug, PartialEq, Eq, Structural)]
pub enum Provider {
    Absent,
    Flag(bool),
    Options,
}

/// Whether a provider announces support.
pub open spec fn offered(p: Provider) -> bool {
    match p {
        Provider::Absent => false,
        Provider::Flag(ok) => ok,
        Provider::Options => true,
    }
}

/// The token types and modifiers that a server's semantic tokens use.
#[derive(Clone, Debug)]
pub struct SemanticLegend {
    pub token_types: Vec<String>,
    pub token_modifiers: Vec<String>,
}

/// The capabilities of a server that the editor's commands depend on.
#[derive(Clone, Debug)]
pub struct ServerFeatures {
    pub call_hierarchy: Provider,
    pub code_action: Provider,
    /// The code action provider has options that ask for resolving.
    pub code_action_resolve: bool,
    pub code_lens: bool,
    pub completion: bool,
    pub definition: Provider,
    pub document_highlight: Provider,
    pub document_symbol: Provider,
    /// The commands a server executes, when it executes any.
    pub execute_commands: Option<Vec<String>>,
    pub formatting: Provider,
    pub hover: Provider,
    pub implementation: Provider,
    pub inlay_hint: Provider,
    pub range_formatting: Provider,
    pub references: Provider,
    pub rename: Provider,
    pub selection_range: Provider,
    /// The legend of the server's semantic tokens, when it has any.
    pub semantic_tokens: Option<SemanticLegend>,
    pub signature_help: bool,
    pub type_definition: Provider,
    pub workspace_symbol: Provider,
}

/// An editor feature that depends on what a server offers.
#[derive(Clone, Copy, Debug, PartialEq, Eq, Structural)]
pub enum Capability {
    CallHierarchy,
    CodeActions,
    CodeActionsResolve,
    CodeLens,
    Completion,
    Definition,
    DocumentHighlight,
    DocumentSymbol,
    ExecuteCommands,
    Formatting,
    Hover,
    Implementation,
    InlayHints,
    RangeFormatting,
    References,
    Rename,
    SelectionRange,
    SemanticTokens,
    SignatureHelp,
    TypeDefinition,
    WorkspaceSymbol,
}

/// The editor commands of a feature, as the report names them.
pub open spec fn capability_label(c: Capability) -> Seq<char> {
    match c {
        Capability::CallHierarchy => "lsp-incoming-calls, lsp-outgoing-calls"@,
        Capability::CodeActions => "lsp-code-actions"@,
        Capability::CodeActionsResolve => "lsp-code-actions-resolve"@,
        Capability::CodeLens => "lsp-code-lens"@,
        Capability::Completion => "lsp-completion (hooked on InsertIdle)"@,
        Capability::Definition => "lsp-definition (mapped to `gd` by default)"@,
        Capability::DocumentHighlight => "lsp-highlight-references"@,
        Capability::DocumentSymbol => "lsp-document-symbol"@,
        Capability::ExecuteCommands => "lsp-execute-commands"@,
        Capability::Formatting => "lsp-formatting"@,
        Capability::Hover => "lsp-hover"@,
        Capability::Implementation => "lsp-implementation"@,
        Capability::InlayHints => "lsp-inlay-hints"@,
        Capability::RangeFormatting => "lsp-range-formatting"@,
        Capability::References => "lsp-references (mapped to `gr` by default)"@,
        Capability::Rename => "lsp-rename"@,
        Capability::SelectionRange => "lsp-selection-range"@,
        Capability::SemanticTokens => "lsp-semantic-tokens"@,
        Capability::SignatureHelp => "lsp-signature-help"@,
        Capability::TypeDefinition => "lsp-type-definition"@,
        Capability::WorkspaceSymbol => "lsp-workspace-symbol"@,
    }
}

impl Capability {
    /// The editor commands of the feature; see `capability_label`.
    pub fn label(&self) -> (res: &'static str)
        ensures
            res@ == capability_label(*self),
    {
        match self {
            Capability::CallHierarchy => "lsp-incoming-calls, lsp-outgoing-calls",
            Capability::CodeActions => "lsp-code-actions",
            Capability::CodeActionsResolve => "lsp-code-actions-resolve",
            Capability::CodeLens => "lsp-code-lens",
            Capability::Completion => "lsp-completion (hooked on InsertIdle)",
            Capability::Definition => "lsp-definition (mapped to `gd` by default)",
            Capability::DocumentHighlight => "lsp-highlight-references",
            Capability::DocumentSymbol => "lsp-document-symbol",
            Capability::ExecuteCommands => "lsp-execute-commands",
            Capability::Formatting => "lsp-formatting",
            Capability::Hover => "lsp-hover",
            Capability::Implementation => "lsp-implementation",
            Capability::InlayHints => "lsp-inlay-hints",
            Capability::RangeFormatting => "lsp-range-formatting",
            Capability::References => "lsp-references (mapped to `gr` by default)",
            Capability::Rename => "lsp-rename",
            Capability::SelectionRange => "lsp-selection-range",
            Capability::SemanticTokens => "lsp-semantic-tokens",
            Capability::SignatureHelp => "lsp-signature-help",
            Capability::TypeDefinition => "lsp-type-definition",
            Capability::WorkspaceSymbol => "lsp-workspace-symbol",
        }
    }
}

/// Whether a server with these capabilities supports a feature.
pub open spec fn supports(f: ServerFeatures, c: Capability) -> bool {
    match c {
        Capability::CallHierarchy => offered(f.call_hierarchy),
        Capability::CodeActions => offered(f.code_action),
        Capability::CodeActionsResolve => f.code_action_resolve,
        Capability::CodeLens => f.code_lens,
        Capability::Completion => f.completion,
        Capability::Definition => offered(f.definition),
        Capability::DocumentHighlight => offered(f.document_highlight),
        Capability::DocumentSymbol => offered(f.document_symbol),
        Capability::ExecuteCommands => f.execute_commands is Some,
        Capability::Formatting => offered(f.formatting),
        Capability::Hover => offered(f.hover),
        Capability::Implementation => offered(f.implementation),
        Capability::InlayHints => offered(f.inlay_hint),
        Capability::RangeFormatting => offered(f.range_formatting),
        Capability::References => offered(f.references),
        Capability::Rename => offered(f.rename),
        Capability::SelectionRange => offered(f.selection_range),
        Capability::SemanticTokens => f.semantic_tokens is Some,
        Capability::SignatureHelp => f.signature_help,
        Capability::TypeDefinition => offered(f.type_definition),
        Capability::WorkspaceSymbol => offered(f.workspace_symbol),
    }
}

/// Whether a provider announces support.
fn is_offered(p: Provider) -> (res: bool)
    ensures
        res == offered(p),
{
    match p {
        Provider::Absent => false,
        Provider::Flag(ok) => ok,
        Provider::Options => true,
    }
}

/// Whether a server with these capabilities supports a feature; see `supports`.
fn feature_supported(f: &ServerFeatures, feature: Capability) -> (res: bool)
    ensures
        res == supports(*f, feature),
{
    match feature {
        Capability::CallHierarchy => is_offered(f.call_hierarchy),
        Capability::CodeActions => is_offered(f.code_action),
        Capability::CodeActionsResolve => f.code_action_resolve,
        Capability::CodeLens => f.code_lens,
        Capability::Completion => f.completion,
        Capability::Definition => is_offered(f.definition),
        Capability::DocumentHighlight => is_offered(f.document_highlight),
        Capability::DocumentSymbol => is_offered(f.document_symbol),
        Capability::ExecuteCommands => f.execute_commands.is_some(),
        Capability::Formatting => is_offered(f.formatting),
        Capability::Hover => is_offered(f.hover),
        Capability::Implementation => is_offered(f.implementation),
        Capability::InlayHints => is_offered(f.inlay_hint),
        Capability::RangeFormatting => is_offered(f.range_formatting),
        Capability::References => is_offered(f.references),
        Capability::Rename => is_offered(f.rename),
        Capability::SelectionRange => is_offered(f.selection_range),
        Capability::SemanticTokens => f.semantic_tokens.is_some(),
        Capability::SignatureHelp => f.signature_help,
        Capability::TypeDefinition => is_offered(f.type_definition),
        Capability::WorkspaceSymbol => is_offered(f.workspace_symbol),
    }
}

/// Whether a server supports a feature; a server whose capabilities are not
/// known yet supports none.
pub fn server_has_capability(capabilities: &Option<ServerFeatures>, feature: Capability) -> (res: bool)
    ensures
        res == match capabilities {
            Some(f) => supports(*f, feature),
            None => false,
        },
{
    match capabilities {
        Some(f) => feature_supported(f, feature),
        None => false,
    }
}

// ---------------------------------------------------------------------------
// Order of texts

/// Whether text `a` comes before text `b`: char by char, a proper prefix first.
pub open spec fn text_less(a: Seq<char>, b: Seq<char>) -> bool
    decreases a.len(),
{
    if a.len() == 0 {
        b.len() > 0
    } else if b.len() == 0 {
        false
    } else if a[0] != b[0] {
        (a[0] as int) < (b[0] as int)
    } else {
        text_less(a.drop_first(), b.drop_first())
    }
}

proof fn lemma_text_less_irreflexive(a: Seq<char>)
    ensures
        !text_less(a, a),
    decreases a.len(),
{
    if a.len() > 0 {
        lemma_text_less_irreflexive(a.drop_first());
    }
}

proof fn lemma_text_less_total(a: Seq<char>, b: Seq<char>)
    ensures
        a != b ==> (text_less(a, b) || text_less(b, a)),
        !(text_less(a, b) && text_less(b, a)),
    decreases a.len(),
{
    if a.len() > 0 && b.len() > 0 {
        lemma_text_less_total(a.drop_first(), b.drop_first());
        if a[0] == b[0] && a.drop_first() == b.drop_first() {
            assert(a =~= seq![a[0]] + a.drop_first());
            assert(b =~= seq![b[0]] + b.drop_first());
        }
    } else if a.len() == 0 && b.len() == 0 {
        assert(a =~= b);
    }
}

proof fn lemma_text_less_transitive(a: Seq<char>, b: Seq<char>, c: Seq<char>)
    ensures
        text_less(a, b) && text_less(b, c) ==> text_less(a, c),
    decreases a.len(),
{
    if a.len() > 0 && b.len() > 0 && c.len() > 0 {
        lemma_text_less_transitive(a.drop_first(), b.drop_first(), c.drop_first());
    }
}

/// The order of texts is strict and total.
pub proof fn lemma_text_less_order(a: Seq<char>, b: Seq<char>, c: Seq<char>)
    ensures
        !text_less(a, a),
        a != b ==> (text_less(a, b) || text_less(b, a)),
        !(text_less(a, b) && text_less(b, a)),
        text_less(a, b) && text_less(b, c) ==> text_less(a, c),
{
    lemma_text_less_irreflexive(a);
    lemma_text_less_total(a, b);
    lemma_text_less_transitive(a, b, c);
}

/// Whether `a` comes before `b`; see `text_less`.
pub fn str_less(a: &str, b: &str) -> (res: bool)
    ensures
        res == text_less(a@, b@),
{
    let x = chars_of(a);
    let y = chars_of(b);
    let mut i: usize = 0;
    assert(a@.skip(0) =~= a@);
    assert(b@.skip(0) =~= b@);
    while i < x.len() && i < y.len() && x[i] == y[i]
        invariant
            i <= x@.len(),
            i <= y@.len(),
            x@ == a@,
            y@ == b@,
            text_less(a@, b@) == text_less(a@.skip(i as int), b@.skip(i as int)),
        decreases x.len() - i,
    {
        proof {
            let sa = a@.skip(i as int);
            let sb = b@.skip(i as int);
            assert(sa.drop_first() =~= a@.skip(i + 1));
            assert(sb.drop_first() =~= b@.skip(i + 1));
        }
        i += 1;
    }
    if i == x.len() {
        i < y.len()
    } else if i == y.len() {
        false
    } else {
        x[i] < y[i]
    }
}

/// Texts in strictly increasing order.
pub open spec fn sorted_strict(ks: Seq<Seq<char>>) -> bool {
    forall|i: int, j: int| 0 <= i < j < ks.len() ==> text_less(ks[i], ks[j])
}

/// Two strictly increasing sequences of texts with the same elements are the
/// same sequence.
pub proof fn lemma_sorted_unique(a: Seq<Seq<char>>, b: Seq<Seq<char>>)
    requires
        sorted_strict(a),
        sorted_strict(b),
        forall|k: Seq<char>| a.contains(k) <==> b.contains(k),
    ensures
        a == b,
    decreases a.len(),
{
    if a.len() == 0 {
        if b.len() > 0 {
            assert(b.contains(b[0]));
        }
        assert(a =~= b);
    } else {
        assert(a.contains(a[0]));
        assert(b.len() > 0);
        assert(b.contains(b[0]));
        let ia = choose|i: int| 0 <= i < a.len() && a[i] == b[0];
        let ib = choose|i: int| 0 <= i < b.len() && b[i] == a[0];
        lemma_text_less_order(a[0], b[0], a[0]);
        if a[0] != b[0] {
            if ia > 0 {
                assert(text_less(a[0], a[ia]));
            }
            if ib > 0 {
                assert(text_less(b[0], b[ib]));
            }
            lemma_text_less_order(a[0], a[0], a[0]);
            lemma_text_less_order(b[0], b[0], b[0]);
        }
        assert(a[0] == b[0]);
        let ra = a.drop_first();
        let rb = b.drop_first();
        assert forall|k: Seq<char>| ra.contains(k) <==> rb.contains(k) by {
            if ra.contains(k) {
                let i = choose|i: int| 0 <= i < ra.len() && ra[i] == k;
                assert(a[i + 1] == k);
                assert(text_less(a[0], a[i + 1]));
                lemma_text_less_order(k, k, k);
                assert(a.contains(k));
                let j = choose|j: int| 0 <= j < b.len() && b[j] == k;
                assert(j != 0);
                assert(rb[j - 1] == k);
            }
            if rb.contains(k) {
                let i = choose|i: int| 0 <= i < rb.len() && rb[i] == k;
                assert(b[i + 1] == k);
                assert(text_less(b[0], b[i + 1]));
                lemma_text_less_order(k, k, k);
                assert(b.contains(k));
                let j = choose|j: int| 0 <= j < a.len() && a[j] == k;
                assert(j != 0);
                assert(ra[j - 1] == k);
            }
        }
        lemma_sorted_unique(ra, rb);
        assert(a =~= seq![a[0]] + ra);
        assert(b =~= seq![b[0]] + rb);
    }
}

// ---------------------------------------------------------------------------
// Features of a server

/// Texts joined with a separator between each two.
pub open spec fn join_with(parts: Seq<Seq<char>>, sep: Seq<char>) -> Seq<char>
    decreases parts.len(),
{
    if parts.len() == 0 {
        Seq::empty()
    } else if parts.len() == 1 {
        parts[0]
    } else {
        join_with(parts.drop_last(), sep) + sep + parts.last()
    }
}

/// The texts of strings.
pub open spec fn strings_view(v: Seq<String>) -> Seq<Seq<char>> {
    v.map_values(|s: String| s@)
}

/// Joins strings with a separator; see `join_with`.
pub fn join_strs(parts: &Vec<String>, sep: &str) -> (res: String)
    ensures
        res@ == join_with(strings_view(parts@), sep@),
{
    let ghost ps = strings_view(parts@);
    let mut out = String::new();
    let mut i: usize = 0;
    while i < parts.len()
        invariant
            i <= parts@.len(),
            ps == strings_view(parts@),
            out@ == join_with(ps.take(i as int), sep@),
        decreases parts.len() - i,
    {
        if i > 0 {
            push_str(&mut out, sep);
        }
        push_str(&mut out, parts[i].as_str());
        proof {
            assert(ps.take(i + 1).drop_last() =~= ps.take(i as int));
            assert(ps.take(i + 1).last() == parts@[i as int]@);
            if i == 0 {
                assert(out@ =~= join_with(ps.take(1), sep@));
            }
        }
        i += 1;
    }
    assert(ps.take(i as int) =~= ps);
    out
}

/// The feature's label, when a server with these capabilities supports it.
pub open spec fn probe(f: ServerFeatures, c: Capability) -> Seq<Seq<char>> {
    if supports(f, c) { seq![capability_label(c)] } else { Seq::empty() }
}

/// The labels of the features in `cs` that a server supports, in order.
pub open spec fn probes(f: ServerFeatures, cs: Seq<Capability>) -> Seq<Seq<char>>
    decreases cs.len(),
{
    if cs.len() == 0 {
        Seq::empty()
    } else {
        probes(f, cs.drop_last()) + probe(f, cs.last())
    }
}

/// The navigation features that the report probes, in order.
pub open spec fn navigation_features() -> Seq<Capability> {
    seq![
        Capability::SelectionRange, Capability::Hover, Capability::Completion, Capability::SignatureHelp,
        Capability::Definition, Capability::TypeDefinition, Capability::Implementation, Capability::References,
        Capability::DocumentHighlight,
    ]
}

/// The editing features that the report probes, in order.
pub open spec fn editing_features() -> Seq<Capability> {
    seq![
        Capability::WorkspaceSymbol, Capability::Formatting, Capability::RangeFormatting, Capability::Rename,
        Capability::CodeActions, Capability::CodeActionsResolve, Capability::CodeLens, Capability::CallHierarchy,
    ]
}

/// The report's lines for navigation features that a server supports; the
/// document symbol line names all the commands that need document symbols.
pub open spec fn navigation_texts(f: ServerFeatures) -> Seq<Seq<char>> {
    probes(f, navigation_features())
        + (if supports(f, Capability::DocumentSymbol) {
            seq!["lsp-document-symbol, lsp-object, lsp-goto-document-symbol"@]
        } else {
            Seq::empty()
        })
}

/// The report's lines for editing features that a server supports.
pub open spec fn editing_texts(f: ServerFeatures) -> Seq<Seq<char>> {
    probes(f, editing_features())
}

/// The report's lines that every server has or that list what it offers:
/// diagnostics, inlay hints, its commands and its semantic token legend.
pub open spec fn offer_texts(f: ServerFeatures) -> Seq<Seq<char>> {
    seq!["lsp-diagnostics"@] + probe(f, Capability::InlayHints)
        + (match f.execute_commands {
            Some(cmds) => seq!["lsp-execute-command: commands: ["@ + join_with(strings_view(cmds@), ", "@) + "]"@],
            None => Seq::empty(),
        })
        + (match f.semantic_tokens {
            Some(l) => seq![
                "lsp-semantic-tokens: types: ["@ + join_with(strings_view(l.token_types@), ", "@) + "]"@,
                "lsp-semantic-tokens: modifiers: ["@ + join_with(strings_view(l.token_modifiers@), ", "@) + "]"@,
            ],
            None => Seq::empty(),
        })
}

/// The report's lines under which a server is listed, in the order they are
/// probed.
pub open spec fn server_feature_texts(f: ServerFeatures) -> Seq<Seq<char>> {
    navigation_texts(f) + editing_texts(f) + offer_texts(f)
}

/// Appends the feature's label when the server supports it.
fn push_probe(out: &mut Vec<String>, f: &ServerFeatures, c: Capability)
    ensures
        strings_view(final(out)@) == strings_view(old(out)@) + probe(*f, c),
{
    let ghost start = strings_view(out@);
    if feature_supported(f, c) {
        let mut l = String::new();
        push_str(&mut l, c.label());
        out.push(l);
        assert(strings_view(out@) =~= start + probe(*f, c));
    } else {
        assert(strings_view(out@) =~= start + probe(*f, c));
    }
}

/// Appends a text.
fn push_text(out: &mut Vec<String>, t: String)
    ensures
        strings_view(final(out)@) == strings_view(old(out)@).push(t@),
{
    let ghost start = strings_view(out@);
    out.push(t);
    assert(strings_view(out@) =~= start.push(t@));
}

/// Appends the labels of the features in `cs` that the server supports.
fn push_probes(out: &mut Vec<String>, f: &ServerFeatures, cs: &Vec<Capability>)
    ensures
        strings_view(final(out)@) == strings_view(old(out)@) + probes(*f, cs@),
{
    let ghost start = strings_view(out@);
    let mut i: usize = 0;
    assert(cs@.take(0) =~= Seq::<Capability>::empty());
    assert(start + probes(*f, cs@.take(0)) =~= start);
    while i < cs.len()
        invariant
            i <= cs@.len(),
            strings_view(out@) == start + probes(*f, cs@.take(i as int)),
        decreases cs.len() - i,
    {
        let ghost before = strings_view(out@);
        push_probe(out, f, cs[i]);
        proof {
            assert(cs@.take(i + 1).drop_last() =~= cs@.take(i as int));
            assert(cs@.take(i + 1).last() == cs@[i as int]);
            assert(strings_view(out@) =~= start + probes(*f, cs@.take(i + 1)));
        }
        i += 1;
    }
    assert(cs@.take(i as int) =~= cs@);
}

/// Appends the lines for navigation features; see `navigation_texts`.
fn push_navigation_texts(out: &mut Vec<String>, f: &ServerFeatures)
    ensures
        strings_view(final(out)@) == strings_view(old(out)@) + navigation_texts(*f),
{
    let ghost start = strings_view(out@);
    let cs = vec![
        Capability::SelectionRange, Capability::Hover, Capability::Completion, Capability::SignatureHelp,
        Capability::Definition, Capability::TypeDefinition, Capability::Implementation, Capability::References,
        Capability::DocumentHighlight,
    ];
    assert(cs@ =~= navigation_features());
    push_probes(out, f, &cs);
    let ghost mid = strings_view(out@);
    if feature_supported(f, Capability::DocumentSymbol) {
        let mut t = String::new();
        push_str(&mut t, "lsp-document-symbol, lsp-object, lsp-goto-document-symbol");
        assert(t@ =~= "lsp-document-symbol, lsp-object, lsp-goto-document-symbol"@);
        push_text(out, t);
        assert(strings_view(out@) =~= start + navigation_texts(*f));
    } else {
        assert(strings_view(out@) =~= start + navigation_texts(*f));
    }
}

/// Appends the lines for editing features; see `editing_texts`.
fn push_editing_texts(out: &mut Vec<String>, f: &ServerFeatures)
    ensures
        strings_view(final(out)@) == strings_view(old(out)@) + editing_texts(*f),
{
    let cs = vec![
        Capability::WorkspaceSymbol, Capability::Formatting, Capability::RangeFormatting, Capability::Rename,
        Capability::CodeActions, Capability::CodeActionsResolve, Capability::CodeLens, Capability::CallHierarchy,
    ];
    assert(cs@ =~= editing_features());
    push_probes(out, f, &cs);
}

/// `prefix`, the parts joined by commas, and a closing bracket.
fn bracketed_list(prefix: &str, parts: &Vec<String>) -> (res: String)
    ensures
        res@ == prefix@ + join_with(strings_view(parts@), ", "@) + "]"@,
{
    let mut t = String::new();
    push_str(&mut t, prefix);
    let j = join_strs(parts, ", ");
    push_str(&mut t, j.as_str());
    push_str(&mut t, "]");
    t
}

/// Appends the lines for what a server offers; see `offer_texts`.
fn push_offer_texts(out: &mut Vec<String>, f: &ServerFeatures)
    ensures
        strings_view(final(out)@) == strings_view(old(out)@) + offer_texts(*f),
{
    let ghost start = strings_view(out@);
    let mut d = String::new();
    push_str(&mut d, "lsp-diagnostics");
    push_text(out, d);
    push_probe(out, f, Capability::InlayHints);
    let ghost a = strings_view(out@);
    match &f.execute_commands {
        Some(cmds) => {
            let t = bracketed_list("lsp-execute-command: commands: [", cmds);
            push_text(out, t);
        },
        None => {},
    }
    let ghost b = strings_view(out@);
    match &f.semantic_tokens {
        Some(l) => {
            let t = bracketed_list("lsp-semantic-tokens: types: [", &l.token_types);
            push_text(out, t);
            let m = bracketed_list("lsp-semantic-tokens: modifiers: [", &l.token_modifiers);
            push_text(out, m);
        },
        None => {},
    }
    assert(strings_view(out@) =~= start + offer_texts(*f));
}

/// The report's lines under which a server is listed; see
/// `server_feature_texts`.
pub fn feature_texts(f: &ServerFeatures) -> (res: Vec<String>)
    ensures
        strings_view(res@) == server_feature_texts(*f),
{
    let mut out: Vec<String> = Vec::new();
    assert(strings_view(out@) =~= Seq::<Seq<char>>::empty());
    push_navigation_texts(&mut out, f);
    push_editing_texts(&mut out, f);
    push_offer_texts(&mut out, f);
    assert(strings_view(out@) =~= server_feature_texts(*f));
    out
}

// ---------------------------------------------------------------------------
// The report's entries

/// Entries of the report as values: a line's feature text and the names of
/// the servers listed under it.
pub open spec fn entries_view(e: Seq<(String, Vec<String>)>) -> Seq<(Seq<char>, Seq<Seq<char>>)> {
    e.map_values(|p: (String, Vec<String>)| (p.0@, strings_view(p.1@)))
}

/// The feature texts of entries.
pub open spec fn entry_keys(ev: Seq<(Seq<char>, Seq<Seq<char>>)>) -> Seq<Seq<char>> {
    ev.map_values(|p: (Seq<char>, Seq<Seq<char>>)| p.0)
}

/// Whether an entry has feature text `k`.
pub open spec fn has_key(ev: Seq<(Seq<char>, Seq<Seq<char>>)>, k: Seq<char>) -> bool {
    exists|i: int| 0 <= i < ev.len() && ev[i].0 == k
}

/// The names listed under feature text `k`; none without such an entry.
pub open spec fn names_of(ev: Seq<(Seq<char>, Seq<Seq<char>>)>, k: Seq<char>) -> Seq<Seq<char>> {
    if has_key(ev, k) {
        ev[choose|i: int| 0 <= i < ev.len() && ev[i].0 == k].1
    } else {
        Seq::empty()
    }
}

/// With sorted texts, the names under an entry's text are that entry's.
proof fn lemma_names_of(ev: Seq<(Seq<char>, Seq<Seq<char>>)>, i: int)
    requires
        sorted_strict(entry_keys(ev)),
        0 <= i < ev.len(),
    ensures
        has_key(ev, ev[i].0),
        names_of(ev, ev[i].0) == ev[i].1,
{
    assert(ev[i].0 == ev[i].0);
    let j = choose|j: int| 0 <= j < ev.len() && ev[j].0 == ev[i].0;
    if j != i {
        lemma_text_less_irreflexive(ev[i].0);
        if j < i {
            assert(text_less(entry_keys(ev)[j], entry_keys(ev)[i]));
        } else {
            assert(text_less(entry_keys(ev)[i], entry_keys(ev)[j]));
        }
    }
}

/// Giving entry `idx` new names changes only the names under its text.
proof fn lemma_entries_update(ev: Seq<(Seq<char>, Seq<Seq<char>>)>, idx: int, names: Seq<Seq<char>>)
    requires
        sorted_strict(entry_keys(ev)),
        0 <= idx < ev.len(),
    ensures
        ({
            let nv = ev.update(idx, (ev[idx].0, names));
            &&& entry_keys(nv) == entry_keys(ev)
            &&& forall|k: Seq<char>| has_key(nv, k) == has_key(ev, k)
            &&& forall|k: Seq<char>| names_of(nv, k) == if k == ev[idx].0 { names } else { names_of(ev, k) }
        }),
{
    let nv = ev.update(idx, (ev[idx].0, names));
    assert(entry_keys(nv) =~= entry_keys(ev));
    assert forall|k: Seq<char>| has_key(nv, k) == has_key(ev, k) by {
        if has_key(ev, k) {
            let i = choose|i: int| 0 <= i < ev.len() && ev[i].0 == k;
            assert(nv[i].0 == k);
        }
        if has_key(nv, k) {
            let i = choose|i: int| 0 <= i < nv.len() && nv[i].0 == k;
            assert(ev[i].0 == k);
        }
    }
    assert forall|k: Seq<char>| names_of(nv, k) == if k == ev[idx].0 { names } else { names_of(ev, k) } by {
        lemma_names_of(nv, idx);
        if k != ev[idx].0 && has_key(ev, k) {
            let i = choose|i: int| 0 <= i < ev.len() && ev[i].0 == k;
            lemma_names_of(ev, i);
            lemma_names_of(nv, i);
        }
    }
}

/// Inserting an entry with a new text at its place in the order keeps the
/// texts sorted and adds just that text.
proof fn lemma_entries_insert(ev: Seq<(Seq<char>, Seq<Seq<char>>)>, idx: int, key: Seq<char>, names: Seq<Seq<char>>)
    requires
        sorted_strict(entry_keys(ev)),
        0 <= idx <= ev.len(),
        forall|j: int| 0 <= j < idx ==> text_less(ev[j].0, key),
        idx < ev.len() ==> text_less(key, ev[idx].0),
    ensures
        ({
            let nv = ev.insert(idx, (key, names));
            &&& sorted_strict(entry_keys(nv))
            &&& forall|k: Seq<char>| has_key(nv, k) == (has_key(ev, k) || k == key)
            &&& forall|k: Seq<char>| names_of(nv, k) == if k == key { names } else { names_of(ev, k) }
        }),
{
    let nv = ev.insert(idx, (key, names));
    let ks = entry_keys(ev);
    let nks = entry_keys(nv);
    assert forall|a: int, b: int| 0 <= a < b < nks.len() implies text_less(nks[a], nks[b]) by {
        if b < idx {
            assert(nks[a] == ks[a] && nks[b] == ks[b]);
        } else if b == idx {
            assert(nks[a] == ks[a]);
        } else if a == idx {
            assert(nks[b] == ks[b - 1]);
            if b - 1 > idx {
                assert(text_less(ks[idx], ks[b - 1]));
                lemma_text_less_transitive(key, ks[idx], ks[b - 1]);
            }
        } else if a < idx {
            assert(nks[a] == ks[a] && nks[b] == ks[b - 1]);
            lemma_text_less_transitive(ks[a], key, ks[b - 1]);
            if b - 1 > a {
                assert(text_less(ks[a], ks[b - 1]));
            }
        } else {
            assert(nks[a] == ks[a - 1] && nks[b] == ks[b - 1]);
        }
    }
    assert forall|k: Seq<char>| has_key(nv, k) == (has_key(ev, k) || k == key) by {
        if has_key(ev, k) {
            let i = choose|i: int| 0 <= i < ev.len() && ev[i].0 == k;
            if i < idx {
                assert(nv[i].0 == k);
            } else {
                assert(nv[i + 1].0 == k);
            }
        }
        if k == key {
            assert(nv[idx].0 == k);
        }
        if has_key(nv, k) && k != key {
            let i = choose|i: int| 0 <= i < nv.len() && nv[i].0 == k;
            if i < idx {
                assert(ev[i].0 == k);
            } else {
                assert(i != idx);
                assert(ev[i - 1].0 == k);
            }
        }
    }
    assert forall|k: Seq<char>| names_of(nv, k) == if k == key { names } else { names_of(ev, k) } by {
        lemma_names_of(nv, idx);
        if k != key && has_key(ev, k) {
            let i = choose|i: int| 0 <= i < ev.len() && ev[i].0 == k;
            lemma_names_of(ev, i);
            if i < idx {
                lemma_names_of(nv, i);
            } else {
                lemma_names_of(nv, i + 1);
            }
        }
    }
}

/// Lists a server under a feature text: at the end of the text's entry, or
/// in a new entry at the text's place in the order.
fn add_feature(entries: &mut Vec<(String, Vec<String>)>, key: String, name: String)
    requires
        sorted_strict(entry_keys(entries_view(old(entries)@))),
    ensures
        sorted_strict(entry_keys(entries_view(final(entries)@))),
        forall|k: Seq<char>| has_key(entries_view(final(entries)@), k) == (has_key(entries_view(old(entries)@), k) || k == key@),
        forall|k: Seq<char>| names_of(entries_view(final(entries)@), k)
            == if k == key@ { names_of(entries_view(old(entries)@), k).push(name@) } else { names_of(entries_view(old(entries)@), k) },
{
    let ghost ev = entries_view(entries@);
    let mut idx: usize = 0;
    while idx < entries.len() && str_less(entries[idx].0.as_str(), key.as_str())
        invariant
            idx <= entries@.len(),
            ev == entries_view(entries@),
            forall|j: int| 0 <= j < idx ==> text_less(ev[j].0, key@),
        decreases entries.len() - idx,
    {
        idx += 1;
    }
    if idx < entries.len() && crate::strings::str_eq(entries[idx].0.as_str(), key.as_str()) {
        let (k, mut names) = entries.remove(idx);
        let ghost old_names = strings_view(names@);
        names.push(name);
        assert(strings_view(names@) =~= old_names.push(name@));
        entries.insert(idx, (k, names));
        proof {
            assert(entries_view(entries@) =~= ev.update(idx as int, (ev[idx as int].0, old_names.push(name@))));
            lemma_entries_update(ev, idx as int, old_names.push(name@));
            lemma_names_of(ev, idx as int);
        }
    } else {
        proof {
            if idx < ev.len() {
                lemma_text_less_total(key@, ev[idx as int].0);
            }
        }
        let mut names: Vec<String> = Vec::new();
        names.push(name);
        let ghost nn = strings_view(names@);
        assert(nn =~= seq![name@]);
        let ghost kv = key@;
        entries.insert(idx, (key, names));
        proof {
            assert(entries_view(entries@) =~= ev.insert(idx as int, (kv, nn)));
            lemma_entries_insert(ev, idx as int, kv, nn);
            if has_key(ev, kv) {
                let i = choose|i: int| 0 <= i < ev.len() && ev[i].0 == kv;
                if i < idx {
                    lemma_text_less_irreflexive(kv);
                } else if i > idx {
                    assert(text_less(entry_keys(ev)[idx as int], entry_keys(ev)[i]));
                    lemma_text_less_transitive(kv, ev[idx as int].0, kv);
                    lemma_text_less_irreflexive(kv);
                }
            }
            assert(names_of(ev, kv) =~= Seq::<Seq<char>>::empty());
            assert(Seq::<Seq<char>>::empty().push(name@) =~= nn);
        }
    }
}

// ---------------------------------------------------------------------------
// The report

/// How many times `k` occurs in `feats`.
pub open spec fn occurrences(feats: Seq<Seq<char>>, k: Seq<char>) -> nat
    decreases feats.len(),
{
    if feats.len() == 0 {
        0
    } else {
        occurrences(feats.drop_last(), k) + if feats.last() == k { 1nat } else { 0nat }
    }
}

/// The names of the servers listed under feature text `k`, in the servers'
/// order (a server listed once per time its lines hold `k`).
pub open spec fn supporters(sv: Seq<(Seq<char>, Seq<Seq<char>>)>, k: Seq<char>) -> Seq<Seq<char>>
    decreases sv.len(),
{
    if sv.len() == 0 {
        Seq::empty()
    } else {
        supporters(sv.drop_last(), k) + Seq::new(occurrences(sv.last().1, k), |i: int| sv.last().0)
    }
}

/// Each server's name with the report's lines under which it is listed.
pub open spec fn servers_view(servers: Seq<(String, ServerFeatures)>) -> Seq<(Seq<char>, Seq<Seq<char>>)> {
    servers.map_values(|p: (String, ServerFeatures)| (p.0@, server_feature_texts(p.1)))
}

/// A line of the report: the feature text, followed by the servers that
/// support it in brackets when there are several servers.
pub open spec fn feature_line(k: Seq<char>, names: Seq<Seq<char>>, many: bool) -> Seq<char> {
    if many { k + " ["@ + join_with(names, ", "@) + "]"@ } else { k }
}

/// The editor command that shows the report: the servers' names, then a
/// line per feature.
pub open spec fn report_text(server_names: Seq<Seq<char>>, lines: Seq<Seq<char>>) -> Seq<char> {
    "info 'LSP commands supported by language servers ("@ + editor_escape_spec(join_with(server_names, ", "@))
        + "):\n\n"@ + editor_escape_spec(join_with(lines, "\n"@)) + "'"@
}

/// Whether `text` is the report for these servers: its lines are the
/// feature texts under which some server is listed, each once, in order.
pub open spec fn is_capabilities_report(text: Seq<char>, sv: Seq<(Seq<char>, Seq<Seq<char>>)>) -> bool {
    exists|ks: Seq<Seq<char>>|
        #![trigger sorted_strict(ks)]
        sorted_strict(ks)
        && (forall|k: Seq<char>| ks.contains(k) <==> supporters(sv, k).len() > 0)
        && text == report_text(
            sv.map_values(|p: (Seq<char>, Seq<Seq<char>>)| p.0),
            ks.map_values(|k: Seq<char>| feature_line(k, supporters(sv, k), sv.len() > 1)),
        )
}

/// What the names under a text will be after the first `j` lines of the
/// server `i` are listed.
pub open spec fn expected_names(sv: Seq<(Seq<char>, Seq<Seq<char>>)>, i: int, j: int, k: Seq<char>) -> Seq<Seq<char>> {
    supporters(sv.take(i), k) + Seq::new(occurrences(sv[i].1.take(j), k), |x: int| sv[i].0)
}

/// Lists server `i` under its lines.
fn add_server(entries: &mut Vec<(String, Vec<String>)>, name: &String, feats: &Vec<String>, Ghost(sv): Ghost<Seq<(Seq<char>, Seq<Seq<char>>)>>, Ghost(i): Ghost<int>)
    requires
        0 <= i < sv.len(),
        sv[i].0 == name@,
        sv[i].1 == strings_view(feats@),
        sorted_strict(entry_keys(entries_view(old(entries)@))),
        forall|k: Seq<char>| has_key(entries_view(old(entries)@), k) == (supporters(sv.take(i), k).len() > 0),
        forall|k: Seq<char>| names_of(entries_view(old(entries)@), k) == supporters(sv.take(i), k),
    ensures
        sorted_strict(entry_keys(entries_view(final(entries)@))),
        forall|k: Seq<char>| has_key(entries_view(final(entries)@), k) == (supporters(sv.take(i + 1), k).len() > 0),
        forall|k: Seq<char>| names_of(entries_view(final(entries)@), k) == supporters(sv.take(i + 1), k),
{
    let ghost fs = sv[i].1;
    proof {
        assert forall|k: Seq<char>| #[trigger] expected_names(sv, i, 0, k) == supporters(sv.take(i), k) by {
            assert(fs.take(0) =~= Seq::<Seq<char>>::empty());
            assert(expected_names(sv, i, 0, k) =~= supporters(sv.take(i), k));
        }
    }
    let mut j: usize = 0;
    while j < feats.len()
        invariant
            0 <= i < sv.len(),
            sv[i].0 == name@,
            fs == sv[i].1,
            fs == strings_view(feats@),
            j <= feats@.len(),
            sorted_strict(entry_keys(entries_view(entries@))),
            forall|k: Seq<char>| has_key(entries_view(entries@), k) == (expected_names(sv, i, j as int, k).len() > 0),
            forall|k: Seq<char>| names_of(entries_view(entries@), k) == expected_names(sv, i, j as int, k),
        decreases feats.len() - j,
    {
        let ghost before = entries_view(entries@);
        let key = feats[j].clone();
        let n = name.clone();
        add_feature(entries, key, n);
        proof {
            let fk = fs[j as int];
            assert(fs.take(j + 1).drop_last() =~= fs.take(j as int));
            assert(fs.take(j + 1).last() == fk);
            assert forall|k: Seq<char>| #[trigger] expected_names(sv, i, j + 1, k)
                == if k == fk { expected_names(sv, i, j as int, k).push(name@) } else { expected_names(sv, i, j as int, k) } by {
                let n0 = occurrences(fs.take(j as int), k);
                if k == fk {
                    assert(Seq::new(n0 + 1, |x: int| sv[i].0) =~= Seq::new(n0, |x: int| sv[i].0).push(name@));
                    assert(expected_names(sv, i, j + 1, k) =~= expected_names(sv, i, j as int, k).push(name@));
                } else {
                    assert(expected_names(sv, i, j + 1, k) =~= expected_names(sv, i, j as int, k));
                }
            }
        }
        j += 1;
    }
    proof {
        assert(fs.take(j as int) =~= fs);
        assert(sv.take(i + 1).drop_last() =~= sv.take(i));
        assert(sv.take(i + 1).last() == sv[i]);
        assert forall|k: Seq<char>| #[trigger] supporters(sv.take(i + 1), k) == expected_names(sv, i, j as int, k) by {
            assert(supporters(sv.take(i + 1), k) =~= expected_names(sv, i, j as int, k));
        }
    }
}

/// The report of the editor commands that each language server supports:
/// an info box that names the servers, then a line per feature that some
/// server supports (with, when there are several servers, the ones that do),
/// in the order of the lines' texts. See `is_capabilities_report`.
pub fn capabilities_report(servers: &Vec<(String, ServerFeatures)>) -> (res: String)
    ensures
        is_capabilities_report(res@, servers_view(servers@)),
{
    let ghost sv = servers_view(servers@);
    let mut entries: Vec<(String, Vec<String>)> = Vec::new();
    proof {
        assert(sv.take(0) =~= Seq::<(Seq<char>, Seq<Seq<char>>)>::empty());
        assert(entries_view(entries@) =~= Seq::<(Seq<char>, Seq<Seq<char>>)>::empty());
        assert forall|k: Seq<char>| #[trigger] supporters(sv.take(0), k) == Seq::<Seq<char>>::empty() by {}
    }
    let mut i: usize = 0;
    while i < servers.len()
        invariant
            i <= servers@.len(),
            sv == servers_view(servers@),
            sorted_strict(entry_keys(entries_view(entries@))),
            forall|k: Seq<char>| has_key(entries_view(entries@), k) == (supporters(sv.take(i as int), k).len() > 0),
            forall|k: Seq<char>| names_of(entries_view(entries@), k) == supporters(sv.take(i as int), k),
        decreases servers.len() - i,
    {
        let feats = feature_texts(&servers[i].1);
        add_server(&mut entries, &servers[i].0, &feats, Ghost(sv), Ghost(i as int));
        i += 1;
    }
    assert(sv.take(i as int) =~= sv);
    let ghost ev = entries_view(entries@);
    let ghost ks = entry_keys(ev);
    let many = servers.len() > 1;
    let mut lines: Vec<String> = Vec::new();
    let mut x: usize = 0;
    while x < entries.len()
        invariant
            x <= entries@.len(),
            ev == entries_view(entries@),
            ks == entry_keys(ev),
            sorted_strict(ks),
            forall|k: Seq<char>| names_of(ev, k) == supporters(sv, k),
            many == (sv.len() > 1),
            strings_view(lines@) == ks.take(x as int).map_values(|k: Seq<char>| feature_line(k, supporters(sv, k), sv.len() > 1)),
        decreases entries.len() - x,
    {
        let ghost before = strings_view(lines@);
        let mut line = String::new();
        push_str(&mut line, entries[x].0.as_str());
        if many {
            push_str(&mut line, " [");
            let j = join_strs(&entries[x].1, ", ");
            push_str(&mut line, j.as_str());
            push_str(&mut line, "]");
        }
        proof {
            lemma_names_of(ev, x as int);
            assert(ev[x as int].1 == supporters(sv, ks[x as int]));
            assert(line@ =~= feature_line(ks[x as int], supporters(sv, ks[x as int]), sv.len() > 1));
        }
        let ghost lv = line@;
        lines.push(line);
        proof {
            assert(strings_view(lines@) =~= before.push(lv));
            assert(ks.take(x + 1).map_values(|k: Seq<char>| feature_line(k, supporters(sv, k), sv.len() > 1))
                =~= ks.take(x as int).map_values(|k: Seq<char>| feature_line(k, supporters(sv, k), sv.len() > 1)).push(lv));
            assert(strings_view(lines@) =~= ks.take(x + 1).map_values(|k: Seq<char>| feature_line(k, supporters(sv, k), sv.len() > 1)));
        }
        x += 1;
    }
    assert(ks.take(x as int) =~= ks);
    let mut names: Vec<String> = Vec::new();
    let mut y: usize = 0;
    while y < servers.len()
        invariant
            y <= servers@.len(),
            sv == servers_view(servers@),
            strings_view(names@) == sv.take(y as int).map_values(|p: (Seq<char>, Seq<Seq<char>>)| p.0),
        decreases servers.len() - y,
    {
        let ghost before = strings_view(names@);
        names.push(servers[y].0.clone());
        proof {
            assert(sv[y as int].0 == servers@[y as int].0@);
            assert(strings_view(names@) =~= before.push(sv[y as int].0));
            assert(sv.take(y + 1).map_values(|p: (Seq<char>, Seq<Seq<char>>)| p.0)
                =~= sv.take(y as int).map_values(|p: (Seq<char>, Seq<Seq<char>>)| p.0).push(sv[y as int].0));
            assert(strings_view(names@) =~= sv.take(y + 1).map_values(|p: (Seq<char>, Seq<Seq<char>>)| p.0));
        }
        y += 1;
    }
    assert(sv.take(y as int) =~= sv);
    let mut out = String::new();
    push_str(&mut out, "info 'LSP commands supported by language servers (");
    let joined_names = join_strs(&names, ", ");
    let escaped_names = editor_escape(joined_names.as_str());
    push_str(&mut out, escaped_names.as_str());
    push_str(&mut out, "):\n\n");
    let joined_lines = join_strs(&lines, "\n");
    let escaped_lines = editor_escape(joined_lines.as_str());
    push_str(&mut out, escaped_lines.as_str());
    push_str(&mut out, "'");
    proof {
        assert forall|k: Seq<char>| ks.contains(k) <==> supporters(sv, k).len() > 0 by {
            if ks.contains(k) {
                let a = choose|a: int| 0 <= a < ks.len() && ks[a] == k;
                assert(ev[a].0 == k);
            }
            if has_key(ev, k) {
                let a = choose|a: int| 0 <= a < ev.len() && ev[a].0 == k;
                assert(ks[a] == k);
            }
        }
        assert(out@ =~= report_text(
            sv.map_values(|p: (Seq<char>, Seq<Seq<char>>)| p.0),
            ks.map_values(|k: Seq<char>| feature_line(k, supporters(sv, k), sv.len() > 1)),
        ));
        assert(sorted_strict(ks));
    }
    out
}

/// The report is determined by the servers: two reports for the same
/// servers are the same text.
pub proof fn lemma_capabilities_report_unique(a: Seq<char>, b: Seq<char>, sv: Seq<(Seq<char>, Seq<Seq<char>>)>)
    requires
        is_capabilities_report(a, sv),
        is_capabilities_report(b, sv),
    ensures
        a == b,
{
    let ka = choose|ks: Seq<Seq<char>>|
        #![trigger sorted_strict(ks)]
        sorted_strict(ks)
        && (forall|k: Seq<char>| ks.contains(k) <==> supporters(sv, k).len() > 0)
        && a == report_text(
            sv.map_values(|p: (Seq<char>, Seq<Seq<char>>)| p.0),
            ks.map_values(|k: Seq<char>| feature_line(k, supporters(sv, k), sv.len() > 1)),
        );
    let kb = choose|ks: Seq<Seq<char>>|
        #![trigger sorted_strict(ks)]
        sorted_strict(ks)
        && (forall|k: Seq<char>| ks.contains(k) <==> supporters(sv, k).len() > 0)
        && b == report_text(
            sv.map_values(|p: (Seq<char>, Seq<Seq<char>>)| p.0),
            ks.map_values(|k: Seq<char>| feature_line(k, supporters(sv, k), sv.len() > 1)),
        );
    lemma_sorted_unique(ka, kb);
}

proof fn lemma_occurrences_concat(a: Seq<Seq<char>>, b: Seq<Seq<char>>, k: Seq<char>)
    ensures
        occurrences(a + b, k) == occurrences(a, k) + occurrences(b, k),
    decreases b.len(),
{
    if b.len() > 0 {
        lemma_occurrences_concat(a, b.drop_last(), k);
        assert((a + b).drop_last() =~= a + b.drop_last());
    } else {
        assert(a + b =~= a);
    }
}

proof fn lemma_occurrences_single(x: Seq<char>, k: Seq<char>)
    ensures
        occurrences(seq![x], k) == if x == k { 1nat } else { 0nat },
        occurrences(Seq::<Seq<char>>::empty(), k) == 0,
{
    assert(seq![x].drop_last() =~= Seq::<Seq<char>>::empty());
    assert(occurrences(Seq::<Seq<char>>::empty(), k) == 0);
    assert(seq![x].last() == x);
}

/// No feature's label is the diagnostics line.
proof fn lemma_label_not_diagnostics(c: Capability)
    ensures
        capability_label(c) != "lsp-diagnostics"@,
{
    reveal_strlit("lsp-diagnostics");
    match c {
        Capability::CallHierarchy => {
            reveal_strlit("lsp-incoming-calls, lsp-outgoing-calls");
            assert("lsp-incoming-calls, lsp-outgoing-calls"@.len() != "lsp-diagnostics"@.len());
            assert(capability_label(c) == "lsp-incoming-calls, lsp-outgoing-calls"@);
            assert(capability_label(c).len() != "lsp-diagnostics"@.len());
        },
        Capability::CodeActions => { reveal_strlit("lsp-code-actions"); },
        Capability::CodeActionsResolve => { reveal_strlit("lsp-code-actions-resolve"); },
        Capability::CodeLens => { reveal_strlit("lsp-code-lens"); },
        Capability::Completion => { reveal_strlit("lsp-completion (hooked on InsertIdle)"); },
        Capability::Definition => { reveal_strlit("lsp-definition (mapped to `gd` by default)"); },
        Capability::DocumentHighlight => { reveal_strlit("lsp-highlight-references"); },
        Capability::DocumentSymbol => { reveal_strlit("lsp-document-symbol"); },
        Capability::ExecuteCommands => { reveal_strlit("lsp-execute-commands"); },
        Capability::Formatting => { reveal_strlit("lsp-formatting"); },
        Capability::Hover => { reveal_strlit("lsp-hover"); },
        Capability::Implementation => { reveal_strlit("lsp-implementation"); },
        Capability::InlayHints => {
            reveal_strlit("lsp-inlay-hints");
            assert("lsp-inlay-hints"@[4] != "lsp-diagnostics"@[4]);
        },
        Capability::RangeFormatting => { reveal_strlit("lsp-range-formatting"); },
        Capability::References => { reveal_strlit("lsp-references (mapped to `gr` by default)"); },
        Capability::Rename => { reveal_strlit("lsp-rename"); },
        Capability::SelectionRange => { reveal_strlit("lsp-selection-range"); },
        Capability::SemanticTokens => { reveal_strlit("lsp-semantic-tokens"); },
        Capability::SignatureHelp => { reveal_strlit("lsp-signature-help"); },
        Capability::TypeDefinition => { reveal_strlit("lsp-type-definition"); },
        Capability::WorkspaceSymbol => { reveal_strlit("lsp-workspace-symbol"); },
    }
}

proof fn lemma_probes_no_diagnostics(f: ServerFeatures, cs: Seq<Capability>)
    ensures
        occurrences(probes(f, cs), "lsp-diagnostics"@) == 0,
    decreases cs.len(),
{
    if cs.len() > 0 {
        lemma_probes_no_diagnostics(f, cs.drop_last());
        lemma_label_not_diagnostics(cs.last());
        lemma_occurrences_concat(probes(f, cs.drop_last()), probe(f, cs.last()), "lsp-diagnostics"@);
        lemma_occurrences_single(capability_label(cs.last()), "lsp-diagnostics"@);
    }
}

/// A server's lines hold the diagnostics line exactly once.
proof fn lemma_server_lists_diagnostics_once(f: ServerFeatures)
    ensures
        occurrences(server_feature_texts(f), "lsp-diagnostics"@) == 1,
{
    let d = "lsp-diagnostics"@;
    reveal_strlit("lsp-diagnostics");
    reveal_strlit("lsp-document-symbol, lsp-object, lsp-goto-document-symbol");
    reveal_strlit("lsp-execute-command: commands: [");
    reveal_strlit("lsp-semantic-tokens: types: [");
    reveal_strlit("lsp-semantic-tokens: modifiers: [");
    lemma_probes_no_diagnostics(f, navigation_features());
    lemma_probes_no_diagnostics(f, editing_features());
    lemma_probes_no_diagnostics(f, seq![Capability::InlayHints]);
    assert(probes(f, seq![Capability::InlayHints]) =~= probe(f, Capability::InlayHints)) by {
        assert(seq![Capability::InlayHints].drop_last() =~= Seq::<Capability>::empty());
        assert(probes(f, Seq::<Capability>::empty()) == Seq::<Seq<char>>::empty());
    }
    let doc: Seq<Seq<char>> = if supports(f, Capability::DocumentSymbol) {
        seq!["lsp-document-symbol, lsp-object, lsp-goto-document-symbol"@]
    } else {
        Seq::empty()
    };
    assert(occurrences(doc, d) == 0) by {
        assert("lsp-document-symbol, lsp-object, lsp-goto-document-symbol"@.len() != d.len());
        lemma_occurrences_single("lsp-document-symbol, lsp-object, lsp-goto-document-symbol"@, d);
    }
    lemma_occurrences_concat(probes(f, navigation_features()), doc, d);
    let exe: Seq<Seq<char>> = match f.execute_commands {
        Some(cmds) => seq!["lsp-execute-command: commands: ["@ + join_with(strings_view(cmds@), ", "@) + "]"@],
        None => Seq::empty(),
    };
    assert(occurrences(exe, d) == 0) by {
        if exe.len() > 0 {
            assert(exe.last().len() > d.len());
            lemma_occurrences_single(exe.last(), d);
            assert(exe =~= seq![exe.last()]);
        } else {
            lemma_occurrences_single(d, d);
        }
    }
    let sem: Seq<Seq<char>> = match f.semantic_tokens {
        Some(l) => seq![
            "lsp-semantic-tokens: types: ["@ + join_with(strings_view(l.token_types@), ", "@) + "]"@,
            "lsp-semantic-tokens: modifiers: ["@ + join_with(strings_view(l.token_modifiers@), ", "@) + "]"@,
        ],
        None => Seq::empty(),
    };
    assert(occurrences(sem, d) == 0) by {
        if sem.len() > 0 {
            assert(sem.drop_last().drop_last() =~= Seq::<Seq<char>>::empty());
            assert(sem.last().len() > d.len());
            assert(sem.drop_last().last().len() > d.len());
            assert(occurrences(sem.drop_last().drop_last(), d) == 0);
            assert(occurrences(sem.drop_last(), d) == 0);
        }
    }
    let head = seq![d];
    lemma_occurrences_single(d, d);
    lemma_occurrences_concat(head, probe(f, Capability::InlayHints), d);
    lemma_occurrences_concat(head + probe(f, Capability::InlayHints), exe, d);
    lemma_occurrences_concat(head + probe(f, Capability::InlayHints) + exe, sem, d);
    lemma_occurrences_concat(navigation_texts(f), editing_texts(f), d);
    lemma_occurrences_concat(navigation_texts(f) + editing_texts(f), offer_texts(f), d);
}

/// Every server is listed, in order, under the diagnostics line of the
/// report.
pub proof fn lemma_every_server_lists_diagnostics(servers: Seq<(String, ServerFeatures)>)
    ensures
        supporters(servers_view(servers), "lsp-diagnostics"@)
            == servers_view(servers).map_values(|p: (Seq<char>, Seq<Seq<char>>)| p.0),
    decreases servers.len(),
{
    let sv = servers_view(servers);
    if servers.len() > 0 {
        lemma_every_server_lists_diagnostics(servers.drop_last());
        assert(servers_view(servers.drop_last()) =~= sv.drop_last());
        lemma_server_lists_diagnostics_once(servers.last().1);
        assert(sv.last() == (servers.last().0@, server_feature_texts(servers.last().1)));
        assert(Seq::new(1, |i: int| sv.last().0) =~= seq![sv.last().0]);
        assert(sv.map_values(|p: (Seq<char>, Seq<Seq<char>>)| p.0)
            =~= sv.drop_last().map_values(|p: (Seq<char>, Seq<Seq<char>>)| p.0).push(sv.last().0));
    } else {
        assert(sv.map_values(|p: (Seq<char>, Seq<Seq<char>>)| p.0) =~= Seq::<Seq<char>>::empty());
    }
}

// ---------------------------------------------------------------------------
// Offset encodings

/// The name of an offset encoding, as LSP writes it.
pub open spec fn encoding_name(e: OffsetEncoding) -> Seq<char> {
    match e {
        OffsetEncoding::Utf8 => "utf-8"@,
        OffsetEncoding::Utf16 => "utf-16"@,
    }
}

/// The offset encodings offered to a server, most wanted first: the
/// preferred one (UTF-8 when none is preferred), then the other.
pub open spec fn offered_encodings(preferred: Option<OffsetEncoding>) -> Seq<OffsetEncoding> {
    match preferred {
        Some(OffsetEncoding::Utf16) => seq![OffsetEncoding::Utf16, OffsetEncoding::Utf8],
        _ => seq![OffsetEncoding::Utf8, OffsetEncoding::Utf16],
    }
}

/// The offset encodings to offer to a server; see `offered_encodings`.
pub fn encodings_to_offer(preferred: Option<OffsetEncoding>) -> (res: Vec<OffsetEncoding>)
    ensures
        res@ == offered_encodings(preferred),
{
    let res = match preferred {
        Some(OffsetEncoding::Utf16) => vec![OffsetEncoding::Utf16, OffsetEncoding::Utf8],
        _ => vec![OffsetEncoding::Utf8, OffsetEncoding::Utf16],
    };
    assert(res@ =~= offered_encodings(preferred));
    res
}

impl OffsetEncoding {
    /// The name of the encoding; see `encoding_name`.
    pub fn name(&self) -> (res: &'static str)
        ensures
            res@ == encoding_name(*self),
    {
        match self {
            OffsetEncoding::Utf8 => "utf-8",
            OffsetEncoding::Utf16 => "utf-16",
        }
    }
}

/// The encoding a server answered with: its position encoding, else its
/// offset encoding; `utf-8` and `utf-16` by name, UTF-16 for any other name
/// (which the server does not get) and when it names none. The flag tells
/// whether the name was one that is not supported.
pub open spec fn answered_encoding(position_encoding: Option<Seq<char>>, offset_encoding: Option<Seq<char>>) -> (OffsetEncoding, bool) {
    let name = match position_encoding {
        Some(n) => Some(n),
        None => offset_encoding,
    };
    match name {
        None => (OffsetEncoding::Utf16, false),
        Some(n) => if n == "utf-8"@ {
            (OffsetEncoding::Utf8, false)
        } else if n == "utf-16"@ {
            (OffsetEncoding::Utf16, false)
        } else {
            (OffsetEncoding::Utf16, true)
        },
    }
}

/// The encoding a server answered with, and whether the name it gave is
/// unsupported; see `answered_encoding`.
pub fn negotiated_encoding(position_encoding: Option<&str>, offset_encoding: Option<&str>) -> (res: (OffsetEncoding, bool))
    ensures
        res == answered_encoding(
            match position_encoding { Some(n) => Some(n@), None => None },
            match offset_encoding { Some(n) => Some(n@), None => None },
        ),
{
    let name = match position_encoding {
        Some(n) => Some(n),
        None => offset_encoding,
    };
    match name {
        None => (OffsetEncoding::Utf16, false),
        Some(n) => if str_eq(n, "utf-8") {
            (OffsetEncoding::Utf8, false)
        } else if str_eq(n, "utf-16") {
            (OffsetEncoding::Utf16, false)
        } else {
            (OffsetEncoding::Utf16, true)
        },
    }
}

/// Whether a server falls back to UTF-16 where UTF-8 was preferred.
pub fn falls_back_from_utf8(preferred: Option<OffsetEncoding>, chosen: OffsetEncoding) -> (res: bool)
    ensures
        res == (preferred == Some(OffsetEncoding::Utf8) && chosen == OffsetEncoding::Utf16),
{
    match (preferred, chosen) {
        (Some(OffsetEncoding::Utf8), OffsetEncoding::Utf16) => true,
        _ => false,
    }
}

/// A server that answers with the name of an encoding it was offered gets
/// that encoding, and no complaint.
pub proof fn lemma_offered_encoding_honored(preferred: Option<OffsetEncoding>, k: int, position_encoding: Option<Seq<char>>, offset_encoding: Option<Seq<char>>)
    requires
        0 <= k < offered_encodings(preferred).len(),
        (match position_encoding { Some(n) => Some(n), None => offset_encoding }) == Some(encoding_name(offered_encodings(preferred)[k])),
    ensures
        answered_encoding(position_encoding, offset_encoding) == (offered_encodings(preferred)[k], false),
{
    reveal_strlit("utf-8");
    reveal_strlit("utf-16");
    assert("utf-8"@.len() != "utf-16"@.len());
}

} // verus!
