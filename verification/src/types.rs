//! Data shared across the library: LSP and Kakoune positions and ranges,
//! text edits, and the editor-side request parameters.

use vstd::prelude::*;
use crate::strings::{decimal, push_char, push_decimal, push_str};

verus! {

/// An LSP position: zero-based line, and zero-based character offset whose
/// unit depends on the server's offset encoding.
#[derive(Clone, Copy, Debug, PartialEq, Eq, Structural)]
pub struct Position {
    pub line: u32,
    pub character: u32,
}

/// An LSP range; `end` is exclusive.
#[derive(Clone, Copy, Debug, PartialEq, Eq, Structural)]
pub struct Range {
    pub start: Position,
    pub end: Position,
}

/// An LSP text edit: replace `range` by `new_text`.
#[derive(Clone, Debug)]
pub struct TextEdit {
    pub range: Range,
    pub new_text: String,
}

/// What a text edit says, with its text as a char sequence.
pub struct TextEditModel {
    pub range: Range,
    pub new_text: Seq<char>,
}

impl View for TextEdit {
    type V = TextEditModel;

    open spec fn view(&self) -> TextEditModel {
        TextEditModel { range: self.range, new_text: self.new_text@ }
    }
}

/// Lexicographic order on positions: line first, then character.
pub open spec fn position_le(a: Position, b: Position) -> bool {
    a.line < b.line || (a.line == b.line && a.character <= b.character)
}

/// `a <= b` on positions, as LSP orders them.
pub fn position_less_eq(a: &Position, b: &Position) -> (res: bool)
    ensures
        res == position_le(*a, *b),
{
    a.line < b.line || (a.line == b.line && a.character <= b.character)
}

/// A Kakoune position: one-based line, and one-based column in bytes.
#[derive(Clone, Copy, Debug, PartialEq, Eq, Structural)]
pub struct KakounePosition {
    pub line: u32,
    pub column: u32,
}

/// A Kakoune range; both ends are inclusive.
#[derive(Clone, Copy, Debug, PartialEq, Eq, Structural)]
pub struct KakouneRange {
    pub start: KakounePosition,
    pub end: KakounePosition,
}

/// Whether one Kakoune position comes no later than another: by line, then
/// by column.
pub open spec fn kakoune_le(a: KakounePosition, b: KakounePosition) -> bool {
    a.line < b.line || (a.line == b.line && a.column <= b.column)
}

/// Kakoune's notation for a position: `line.column`.
pub open spec fn kakoune_position_text(p: KakounePosition) -> Seq<char> {
    decimal(p.line as nat) + seq!['.'] + decimal(p.column as nat)
}

/// Kakoune's notation for a range, as a selection description: `end,start`.
pub open spec fn kakoune_range_text(r: KakouneRange) -> Seq<char> {
    kakoune_position_text(r.end) + seq![','] + kakoune_position_text(r.start)
}

impl KakounePosition {
    /// Kakoune's notation for the position, `line.column`.
    pub fn to_string(&self) -> (res: String)
        ensures
            res@ == kakoune_position_text(*self),
    {
        let mut s = String::new();
        self.push_to(&mut s);
        assert(s@ =~= kakoune_position_text(*self));
        s
    }

    /// Appends Kakoune's notation for the position to `out`.
    pub fn push_to(&self, out: &mut String)
        ensures
            final(out)@ == old(out)@ + kakoune_position_text(*self),
    {
        let ghost start = out@;
        push_decimal(out, self.line as u64);
        push_char(out, '.');
        push_decimal(out, self.column as u64);
        assert(out@ =~= start + kakoune_position_text(*self));
    }
}

impl KakouneRange {
    /// Kakoune's notation for the range, `end,start`.
    pub fn to_string(&self) -> (res: String)
        ensures
            res@ == kakoune_range_text(*self),
    {
        let mut s = String::new();
        self.push_to(&mut s);
        assert(s@ =~= kakoune_range_text(*self));
        s
    }

    /// Appends Kakoune's notation for the range to `out`.
    pub fn push_to(&self, out: &mut String)
        ensures
            final(out)@ == old(out)@ + kakoune_range_text(*self),
    {
        let ghost start = out@;
        self.end.push_to(out);
        push_char(out, ',');
        self.start.push_to(out);
        assert(out@ =~= start + kakoune_range_text(*self));
    }
}

/// How a language server counts `Position::character`.
#[derive(Clone, Copy, Debug, PartialEq, Eq, Structural)]
pub enum OffsetEncoding {
    /// UTF-8 code units, that is bytes.
    Utf8,
    /// UTF-16 code units.
    Utf16,
}

impl Default for OffsetEncoding {
    /// The encoding assumed when a server does not say: UTF-16.
    fn default() -> (res: OffsetEncoding)
        ensures
            res == OffsetEncoding::Utf16,
    {
        OffsetEncoding::Utf16
    }
}

/// A Kakoune session's name.
#[derive(Clone, Debug)]
pub struct SessionId(pub String);

/// A Kakoune client's name.
#[derive(Clone, Debug)]
pub struct ClientId(pub String);

/// Settings of the language-server client itself.
#[derive(Clone, Debug)]
pub struct ServerConfig {
    /// No longer read; kept so that old configurations still parse.
    pub session: String,
    /// Seconds of inactivity after which the client exits; 0 for never.
    pub timeout: u64,
}

/// What the editor sends with a completion request.
#[derive(Clone, Copy, Debug)]
pub struct EditorCompletion {
    /// The byte offset on the line at which the completed word starts.
    pub offset: u32,
}

/// The parameters of a request to open a document.
#[derive(Clone, Debug)]
pub struct TextDocumentDidOpenParams {
    /// The buffer's text.
    pub draft: String,
}

/// The parameters of a notification that a document changed.
#[derive(Clone, Debug)]
pub struct TextDocumentDidChangeParams {
    /// The buffer's new text.
    pub draft: String,
}

/// The parameters of a completion request.
#[derive(Clone, Copy, Debug)]
pub struct TextDocumentCompletionParams {
    pub position: KakounePosition,
    pub completion: EditorCompletion,
}

/// The parameters of a request to resolve a completion item.
#[derive(Clone, Copy, Debug)]
pub struct CompletionItemResolveParams {
    pub completion_item_timestamp: i32,
    pub completion_item_index: isize,
    pub pager_active: bool,
}

/// A request about one position.
#[derive(Clone, Copy, Debug)]
pub struct PositionParams {
    pub position: KakounePosition,
}

/// The parameters of a hover request.
#[derive(Clone, Debug)]
pub struct EditorHoverParams {
    pub selection_desc: String,
    pub tabstop: usize,
    pub hover_client: Option<ClientId>,
}

/// The parameters of a call hierarchy request.
#[derive(Clone, Copy, Debug)]
pub struct CallHierarchyParams {
    pub position: KakounePosition,
    /// Incoming calls when true, outgoing calls otherwise.
    pub incoming_or_outgoing: bool,
}

/// The parameters of a request to resolve a code action.
#[derive(Clone, Debug)]
pub struct CodeActionResolveParams {
    pub code_action: String,
}

/// The parameters of a request for the next or previous symbol.
#[derive(Clone, Debug)]
pub struct NextOrPrevSymbolParams {
    pub position: KakounePosition,
    /// Search forward ("next") when true, backward ("previous") otherwise.
    pub search_next: bool,
    /// Show the symbol's hover when true, go to it otherwise.
    pub hover: bool,
    /// Match any of these kinds of symbols, or any symbol if empty.
    pub symbol_kinds: Vec<String>,
}

/// The parameters of a breadcrumbs request.
#[derive(Clone, Copy, Debug)]
pub struct BreadcrumbsParams {
    pub position_line: u32,
}

impl Default for BreadcrumbsParams {
    /// Breadcrumbs for line 0.
    fn default() -> (res: BreadcrumbsParams)
        ensures
            res.position_line == 0,
    {
        BreadcrumbsParams { position_line: 0 }
    }
}

/// The parameters of a request to go to a symbol.
#[derive(Clone, Debug)]
pub struct GotoSymbolParams {
    pub goto_symbol: Option<String>,
}

/// The parameters of a request to select a text object.
#[derive(Clone, Debug)]
pub struct ObjectParams {
    pub count: u32,
    pub mode: String,
    pub selections_desc: Vec<String>,
    pub symbol_kinds: Vec<String>,
}

/// The parameters of a rename request.
#[derive(Clone, Debug)]
pub struct TextDocumentRenameParams {
    pub position: KakounePosition,
    pub new_name: String,
}

/// The parameters of a selection range request.
#[derive(Clone, Debug)]
pub struct SelectionRangePositionParams {
    /// The cursor position.
    pub position: KakounePosition,
    /// The ranges of all Kakoune selections.
    pub selections_desc: Vec<String>,
}

/// Where hover information is shown.
pub enum HoverType {
    InfoBox,
    Modal { modal_heading: String, do_after: String },
    HoverBuffer { client: ClientId },
}

/// An editor connection that sends nothing.
pub struct NotToEditor {}

/// The fifo through which the editor waits for a response, until one is written.
pub struct ResponseFifo(Option<String>);

impl ResponseFifo {
    /// The path of the fifo, while no response has been written to it.
    pub closed spec fn pending(&self) -> Option<Seq<char>> {
        match self.0 {
            Some(f) => Some(f@),
            None => None,
        }
    }

    /// A fifo at `fifo` that awaits its response.
    pub fn new(fifo: String) -> (res: Self)
        ensures
            res.pending() == Some(fifo@),
    {
        ResponseFifo(Some(fifo))
    }

    /// Takes the fifo's path for writing the response; afterwards none is pending.
    pub fn take(&mut self) -> (res: Option<String>)
        ensures
            match res {
                Some(f) => old(self).pending() == Some(f@),
                None => old(self).pending() is None,
            },
            final(self).pending() is None,
    {
        self.0.take()
    }
}

/// A face for semantic tokens of a type that carry at least these modifiers.
#[derive(Clone, Debug)]
pub struct SemanticTokenFace {
    pub face: String,
    pub token: String,
    pub modifiers: Vec<String>,
}

/// The name under which a server's configuration is looked up: where
/// languages are configured in the legacy way, `language:server`; else the
/// server's own name.
pub fn server_name_for_lookup(legacy_languages: bool, language_id: &str, server_name: &str) -> (res: String)
    ensures
        res@ == if legacy_languages { language_id@ + seq![':'] + server_name@ } else { server_name@ },
{
    let mut out = String::new();
    if legacy_languages {
        push_str(&mut out, language_id);
        push_char(&mut out, ':');
    }
    push_str(&mut out, server_name);
    out
}

} // verus!
