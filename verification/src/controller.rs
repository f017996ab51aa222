//! The decisions around an editor request: which handler takes it, which
//! servers are told of its buffer first, and which running server may serve
//! a request that names a server.

use vstd::prelude::*;
use crate::strings::{chars_of, str_eq};

verus! {

/// A running server, as far as routing needs it: its name, whether its
/// capabilities are known (it has been initialized), whether it supports
/// workspace folders, and the roots it serves.
#[derive(Clone, Debug)]
pub struct RunningServer {
    pub name: String,
    pub initialized: bool,
    pub workspace_folders: bool,
    pub roots: Vec<String>,
}

/// Whether a running server serves requests for server `name` at `root`:
/// it has that name, is initialized, and serves that root (or any root,
/// when it supports workspace folders).
pub open spec fn serves(s: RunningServer, name: Seq<char>, root: Seq<char>) -> bool {
    &&& s.name@ == name
    &&& s.initialized
    &&& (s.workspace_folders || exists|k: int| 0 <= k < s.roots.len() && (#[trigger] s.roots@[k])@ == root)
}

/// Whether `candidate` serves requests for server `requested_server_name`
/// at `requested_root_path`; see `serves`.
pub fn can_serve(candidate: &RunningServer, requested_server_name: &str, requested_root_path: &str) -> (res: bool)
    ensures
        res == serves(*candidate, requested_server_name@, requested_root_path@),
{
    if !str_eq(candidate.name.as_str(), requested_server_name) || !candidate.initialized {
        return false;
    }
    if candidate.workspace_folders {
        return true;
    }
    let mut k: usize = 0;
    while k < candidate.roots.len()
        invariant
            k <= candidate.roots.len(),
            candidate.name@ == requested_server_name@,
            candidate.initialized,
            forall|j: int| 0 <= j < k ==> (#[trigger] candidate.roots@[j])@ != requested_root_path@,
        decreases candidate.roots.len() - k,
    {
        if str_eq(candidate.roots[k].as_str(), requested_root_path) {
            assert(candidate.roots@[k as int]@ == requested_root_path@);
            return true;
        }
        k = k + 1;
    }
    false
}


// ---------------------------------------------------------------------------
// Which handler an editor request goes to

/// The handler of an editor request.
#[derive(Clone, Copy, Debug, PartialEq, Eq, Structural)]
pub enum Handler {
    DidOpen,
    DidChange,
    DidClose,
    DidSave,
    DidChangeConfiguration,
    CallHierarchyPrepare,
    CodeLens,
    Completion,
    ResolveCompletionItem,
    CodeAction,
    CodeActionResolve,
    ExecuteCommand,
    Hover,
    Definition,
    Declaration,
    Implementation,
    TypeDefinition,
    References,
    Exit,
    WorkDoneProgressCancel,
    SelectionRange,
    SignatureHelp,
    DocumentHighlight,
    DocumentSymbol,
    Breadcrumbs,
    NextOrPreviousSymbol,
    Object,
    GotoDocumentSymbol,
    ResolveCodeLens,
    Formatting,
    RangeFormatting,
    WorkspaceSymbol,
    Rename,
    Diagnostics,
    Capabilities,
    ApplyWorkspaceEdit,
    SemanticTokens,
    InlayHint,
    ShowMessageRequestNext,
    ShowMessageRequestRespond,
    CclsNavigate,
    CclsVars,
    CclsInheritance,
    CclsCall,
    CclsMember,
    SwitchSourceHeader,
    OrganizeImports,
    ExpandMacro,
    Build,
    ForwardSearch,
    /// A method no handler takes (it is reported).
    Unsupported,
}

/// The handler of a request's method.
pub open spec fn handler_of(method: Seq<char>) -> Handler {
    if method == "textDocument/didOpen"@ {
        Handler::DidOpen
    } else if method == "textDocument/didChange"@ {
        Handler::DidChange
    } else if method == "textDocument/didClose"@ {
        Handler::DidClose
    } else if method == "textDocument/didSave"@ {
        Handler::DidSave
    } else if method == "workspace/didChangeConfiguration"@ {
        Handler::DidChangeConfiguration
    } else if method == "textDocument/prepareCallHierarchy"@ {
        Handler::CallHierarchyPrepare
    } else if method == "textDocument/codeLens"@ {
        Handler::CodeLens
    } else if method == "textDocument/completion"@ {
        Handler::Completion
    } else if method == "completionItem/resolve"@ {
        Handler::ResolveCompletionItem
    } else if method == "textDocument/codeAction"@ {
        Handler::CodeAction
    } else if method == "codeAction/resolve"@ {
        Handler::CodeActionResolve
    } else if method == "workspace/executeCommand"@ {
        Handler::ExecuteCommand
    } else if method == "textDocument/hover"@ {
        Handler::Hover
    } else if method == "textDocument/definition"@ {
        Handler::Definition
    } else if method == "textDocument/declaration"@ {
        Handler::Declaration
    } else if method == "textDocument/implementation"@ {
        Handler::Implementation
    } else if method == "textDocument/typeDefinition"@ {
        Handler::TypeDefinition
    } else if method == "textDocument/references"@ {
        Handler::References
    } else if method == "exit"@ {
        Handler::Exit
    } else if method == "window/workDoneProgress/cancel"@ {
        Handler::WorkDoneProgressCancel
    } else if method == "textDocument/selectionRange"@ {
        Handler::SelectionRange
    } else if method == "textDocument/signatureHelp"@ {
        Handler::SignatureHelp
    } else if method == "textDocument/documentHighlight"@ {
        Handler::DocumentHighlight
    } else if method == "textDocument/documentSymbol"@ {
        Handler::DocumentSymbol
    } else if method == "kakoune/breadcrumbs"@ {
        Handler::Breadcrumbs
    } else if method == "kakoune/next-or-previous-symbol"@ {
        Handler::NextOrPreviousSymbol
    } else if method == "kakoune/object"@ {
        Handler::Object
    } else if method == "kakoune/goto-document-symbol"@ {
        Handler::GotoDocumentSymbol
    } else if method == "kakoune/textDocument/codeLens"@ {
        Handler::ResolveCodeLens
    } else if method == "textDocument/formatting"@ {
        Handler::Formatting
    } else if method == "textDocument/rangeFormatting"@ {
        Handler::RangeFormatting
    } else if method == "workspace/symbol"@ {
        Handler::WorkspaceSymbol
    } else if method == "textDocument/rename"@ {
        Handler::Rename
    } else if method == "textDocument/diagnostics"@ {
        Handler::Diagnostics
    } else if method == "capabilities"@ {
        Handler::Capabilities
    } else if method == "apply-workspace-edit"@ {
        Handler::ApplyWorkspaceEdit
    } else if method == "textDocument/semanticTokens/full"@ {
        Handler::SemanticTokens
    } else if method == "textDocument/inlayHint"@ {
        Handler::InlayHint
    } else if method == "window/showMessageRequest/showNext"@ {
        Handler::ShowMessageRequestNext
    } else if method == "window/showMessageRequest/respond"@ {
        Handler::ShowMessageRequestRespond
    } else if method == "$ccls/navigate"@ {
        Handler::CclsNavigate
    } else if method == "$ccls/vars"@ {
        Handler::CclsVars
    } else if method == "$ccls/inheritance"@ {
        Handler::CclsInheritance
    } else if method == "$ccls/call"@ {
        Handler::CclsCall
    } else if method == "$ccls/member"@ {
        Handler::CclsMember
    } else if method == "textDocument/switchSourceHeader"@ {
        Handler::SwitchSourceHeader
    } else if method == "eclipse.jdt.ls/organizeImports"@ {
        Handler::OrganizeImports
    } else if method == "rust-analyzer/expandMacro"@ {
        Handler::ExpandMacro
    } else if method == "textDocument/build"@ {
        Handler::Build
    } else if method == "textDocument/forwardSearch"@ {
        Handler::ForwardSearch
    } else {
        Handler::Unsupported
    }
}

/// The handler of a request's method; see `handler_of`.
pub fn handler_for(method: &str) -> (res: Handler)
    ensures
        res == handler_of(method@),
{
    if str_eq(method, "textDocument/didOpen") {
        Handler::DidOpen
    } else if str_eq(method, "textDocument/didChange") {
        Handler::DidChange
    } else if str_eq(method, "textDocument/didClose") {
        Handler::DidClose
    } else if str_eq(method, "textDocument/didSave") {
        Handler::DidSave
    } else if str_eq(method, "workspace/didChangeConfiguration") {
        Handler::DidChangeConfiguration
    } else if str_eq(method, "textDocument/prepareCallHierarchy") {
        Handler::CallHierarchyPrepare
    } else if str_eq(method, "textDocument/codeLens") {
        Handler::CodeLens
    } else if str_eq(method, "textDocument/completion") {
        Handler::Completion
    } else if str_eq(method, "completionItem/resolve") {
        Handler::ResolveCompletionItem
    } else if str_eq(method, "textDocument/codeAction") {
        Handler::CodeAction
    } else if str_eq(method, "codeAction/resolve") {
        Handler::CodeActionResolve
    } else if str_eq(method, "workspace/executeCommand") {
        Handler::ExecuteCommand
    } else if str_eq(method, "textDocument/hover") {
        Handler::Hover
    } else if str_eq(method, "textDocument/definition") {
        Handler::Definition
    } else if str_eq(method, "textDocument/declaration") {
        Handler::Declaration
    } else if str_eq(method, "textDocument/implementation") {
        Handler::Implementation
    } else if str_eq(method, "textDocument/typeDefinition") {
        Handler::TypeDefinition
    } else if str_eq(method, "textDocument/references") {
        Handler::References
    } else if str_eq(method, "exit") {
        Handler::Exit
    } else if str_eq(method, "window/workDoneProgress/cancel") {
        Handler::WorkDoneProgressCancel
    } else if str_eq(method, "textDocument/selectionRange") {
        Handler::SelectionRange
    } else if str_eq(method, "textDocument/signatureHelp") {
        Handler::SignatureHelp
    } else if str_eq(method, "textDocument/documentHighlight") {
        Handler::DocumentHighlight
    } else if str_eq(method, "textDocument/documentSymbol") {
        Handler::DocumentSymbol
    } else if str_eq(method, "kakoune/breadcrumbs") {
        Handler::Breadcrumbs
    } else if str_eq(method, "kakoune/next-or-previous-symbol") {
        Handler::NextOrPreviousSymbol
    } else if str_eq(method, "kakoune/object") {
        Handler::Object
    } else if str_eq(method, "kakoune/goto-document-symbol") {
        Handler::GotoDocumentSymbol
    } else if str_eq(method, "kakoune/textDocument/codeLens") {
        Handler::ResolveCodeLens
    } else if str_eq(method, "textDocument/formatting") {
        Handler::Formatting
    } else if str_eq(method, "textDocument/rangeFormatting") {
        Handler::RangeFormatting
    } else if str_eq(method, "workspace/symbol") {
        Handler::WorkspaceSymbol
    } else if str_eq(method, "textDocument/rename") {
        Handler::Rename
    } else if str_eq(method, "textDocument/diagnostics") {
        Handler::Diagnostics
    } else if str_eq(method, "capabilities") {
        Handler::Capabilities
    } else if str_eq(method, "apply-workspace-edit") {
        Handler::ApplyWorkspaceEdit
    } else if str_eq(method, "textDocument/semanticTokens/full") {
        Handler::SemanticTokens
    } else if str_eq(method, "textDocument/inlayHint") {
        Handler::InlayHint
    } else if str_eq(method, "window/showMessageRequest/showNext") {
        Handler::ShowMessageRequestNext
    } else if str_eq(method, "window/showMessageRequest/respond") {
        Handler::ShowMessageRequestRespond
    } else if str_eq(method, "$ccls/navigate") {
        Handler::CclsNavigate
    } else if str_eq(method, "$ccls/vars") {
        Handler::CclsVars
    } else if str_eq(method, "$ccls/inheritance") {
        Handler::CclsInheritance
    } else if str_eq(method, "$ccls/call") {
        Handler::CclsCall
    } else if str_eq(method, "$ccls/member") {
        Handler::CclsMember
    } else if str_eq(method, "textDocument/switchSourceHeader") {
        Handler::SwitchSourceHeader
    } else if str_eq(method, "eclipse.jdt.ls/organizeImports") {
        Handler::OrganizeImports
    } else if str_eq(method, "rust-analyzer/expandMacro") {
        Handler::ExpandMacro
    } else if str_eq(method, "textDocument/build") {
        Handler::Build
    } else if str_eq(method, "textDocument/forwardSearch") {
        Handler::ForwardSearch
    } else {
        Handler::Unsupported
    }
}

// ---------------------------------------------------------------------------
// Telling servers of the buffer before a request

/// Requests handled whatever version of the buffer they were made on: the
/// notifications about documents, configuration, exit and progress, and the
/// resolution of a completion item (the editor does not update the buffer
/// while its completion menu is shown).
pub open spec fn ignores_version(h: Handler) -> bool {
    h == Handler::DidOpen || h == Handler::DidChange || h == Handler::DidClose || h == Handler::DidSave
        || h == Handler::DidChangeConfiguration || h == Handler::Exit || h == Handler::WorkDoneProgressCancel
        || h == Handler::ResolveCompletionItem
}

/// What is done with a request as it comes from the editor.
#[derive(Clone, Copy, Debug, PartialEq, Eq, Structural)]
pub enum IncomingDecision {
    /// The buffer known is older than the request: the request waits until
    /// an update of the buffer brings its version.
    WaitForBuffer,
    /// The request is handled now; after an opening or a change, the
    /// requests that wait are looked at again.
    Dispatch { version_bump: bool },
}

/// The decision for a request of `method` on `buffile` made on buffer
/// version `request_version`, where the buffer known has version
/// `document_version` (`None`: not known, taken as version 0).
pub open spec fn incoming_decision_of(method: Seq<char>, buffile: Seq<char>, request_version: i32, document_version: Option<i32>) -> IncomingDecision {
    let known: int = match document_version {
        Some(v) => v as int,
        None => 0,
    };
    if buffile.len() > 0 && known < request_version && !ignores_version(handler_of(method)) {
        IncomingDecision::WaitForBuffer
    } else {
        IncomingDecision::Dispatch {
            version_bump: handler_of(method) == Handler::DidOpen || handler_of(method) == Handler::DidChange,
        }
    }
}

/// The decision for an incoming request; see `incoming_decision_of`.
pub fn incoming_decision(method: &str, buffile: &str, request_version: i32, document_version: Option<i32>) -> (res: IncomingDecision)
    ensures
        res == incoming_decision_of(method@, buffile@, request_version, document_version),
{
    let h = handler_for(method);
    let known: i32 = match document_version {
        Some(v) => v,
        None => 0,
    };
    let ignores = h == Handler::DidOpen || h == Handler::DidChange || h == Handler::DidClose || h == Handler::DidSave
        || h == Handler::DidChangeConfiguration || h == Handler::Exit || h == Handler::WorkDoneProgressCancel
        || h == Handler::ResolveCompletionItem;
    proof {
        reveal_strlit("");
        if buffile@.len() == 0 {
            assert(buffile@ =~= ""@);
        }
    }
    let empty = str_eq(buffile, "");
    if !empty && known < request_version && !ignores {
        IncomingDecision::WaitForBuffer
    } else {
        IncomingDecision::Dispatch { version_bump: h == Handler::DidOpen || h == Handler::DidChange }
    }
}

/// Whether a request that waits for its buffer is handled once the buffer
/// known has version `document_version` (`None`: the buffer is not known).
pub open spec fn pending_ready_of(document_version: Option<i32>, request_version: i32) -> bool {
    match document_version {
        Some(v) => v >= request_version,
        None => false,
    }
}

/// See `pending_ready_of`.
pub fn pending_ready(document_version: Option<i32>, request_version: i32) -> (res: bool)
    ensures
        res == pending_ready_of(document_version, request_version),
{
    match document_version {
        Some(v) => v >= request_version,
        None => false,
    }
}

/// A request that waits for its buffer is handled once an update brings the
/// version it was made on: a request that was made to wait becomes ready
/// when the buffer reaches its version, and no request waits for a buffer
/// that is already as new as the request.
pub proof fn lemma_wait_until_version(method: Seq<char>, buffile: Seq<char>, request_version: i32, document_version: Option<i32>)
    ensures
        incoming_decision_of(method, buffile, request_version, document_version) == IncomingDecision::WaitForBuffer
            ==> !pending_ready_of(document_version, request_version) && pending_ready_of(Some(request_version), request_version),
        pending_ready_of(document_version, request_version)
            ==> incoming_decision_of(method, buffile, request_version, document_version) != IncomingDecision::WaitForBuffer,
{
}

/// What is known of a request's buffer: its file, and, when it is open, the
/// servers that have been told so.
pub struct DocumentState {
    pub buffile: String,
    pub opened_in_servers: Option<Vec<usize>>,
}

/// The servers of `servers` that are not in `opened`, in their order.
pub open spec fn unaware_servers(servers: Seq<usize>, opened: Seq<usize>) -> Seq<usize>
    decreases servers.len(),
{
    if servers.len() == 0 {
        Seq::empty()
    } else {
        unaware_servers(servers.drop_last(), opened) + if opened.contains(servers.last()) {
            Seq::empty()
        } else {
            seq![servers.last()]
        }
    }
}

/// The servers to tell that the buffer is open before a request is handled:
/// those of the request that have not been told (with the request's draft
/// for a change, else with the text known). None for an opening itself, for
/// a request without a file, outside a file, or on a buffer not open.
pub enum DidOpenPlan {
    Nothing,
    WithDraft(Vec<usize>),
    WithCachedText(Vec<usize>),
}

/// A plan as values.
pub enum DidOpenPlanView {
    Nothing,
    WithDraft(Seq<usize>),
    WithCachedText(Seq<usize>),
}

impl DidOpenPlan {
    pub open spec fn view(self) -> DidOpenPlanView {
        match self {
            DidOpenPlan::Nothing => DidOpenPlanView::Nothing,
            DidOpenPlan::WithDraft(s) => DidOpenPlanView::WithDraft(s@),
            DidOpenPlan::WithCachedText(s) => DidOpenPlanView::WithCachedText(s@),
        }
    }
}

/// The plan for a request; see `DidOpenPlan`.
pub open spec fn did_open_plan_of(method: Seq<char>, buffile: Seq<char>, opened: Option<Seq<usize>>, servers: Seq<usize>) -> DidOpenPlanView {
    if handler_of(method) == Handler::DidOpen || buffile.len() == 0 || buffile[0] != '/' {
        DidOpenPlanView::Nothing
    } else {
        match opened {
            None => DidOpenPlanView::Nothing,
            Some(o) => {
                let u = unaware_servers(servers, o);
                if u.len() == 0 {
                    DidOpenPlanView::Nothing
                } else if handler_of(method) == Handler::DidChange {
                    DidOpenPlanView::WithDraft(u)
                } else {
                    DidOpenPlanView::WithCachedText(u)
                }
            },
        }
    }
}

/// What is done with an editor request: its handler, and the servers told of
/// its buffer first.
pub struct EditorAction {
    pub handler: Handler,
    pub did_open: DidOpenPlan,
}

/// The opened servers as values.
pub open spec fn opened_view(o: Option<Vec<usize>>) -> Option<Seq<usize>> {
    match o {
        Some(v) => Some(v@),
        None => None,
    }
}

/// What is done with an editor request for method `method` on a buffer;
/// see `handler_of` and `did_open_plan_of`. A request other than an opening
/// on a file that is not open must be a change of configuration, and one
/// outside a file the exit.
pub fn editor_action(method: &str, doc: &DocumentState, servers: &Vec<usize>) -> (a: EditorAction)
    requires
        handler_of(method@) == Handler::DidOpen || doc.buffile@.len() == 0 || (doc.buffile@[0] == '/'
            ==> (doc.opened_in_servers is Some || handler_of(method@) == Handler::DidChangeConfiguration)),
        handler_of(method@) == Handler::DidOpen || doc.buffile@.len() == 0 || doc.buffile@[0] == '/' || handler_of(method@)
            == Handler::Exit,
    ensures
        a.handler == handler_of(method@),
        a.did_open.view() == did_open_plan_of(method@, doc.buffile@, opened_view(doc.opened_in_servers), servers@),
{
    let handler = handler_for(method);
    let chars = chars_of(doc.buffile.as_str());
    if handler == Handler::DidOpen || chars.len() == 0 || chars[0] != '/' {
        return EditorAction { handler, did_open: DidOpenPlan::Nothing };
    }
    let opened = match &doc.opened_in_servers {
        Some(o) => o,
        None => return EditorAction { handler, did_open: DidOpenPlan::Nothing },
    };
    let mut u: Vec<usize> = Vec::new();
    let mut k: usize = 0;
    while k < servers.len()
        invariant
            k <= servers.len(),
            u@ == unaware_servers(servers@.take(k as int), opened@),
        decreases servers.len() - k,
    {
        proof {
            assert(servers@.take(k + 1).drop_last() =~= servers@.take(k as int));
        }
        let s = servers[k];
        let mut known = false;
        let mut j: usize = 0;
        while j < opened.len()
            invariant
                j <= opened.len(),
                known == opened@.take(j as int).contains(s),
            decreases opened.len() - j,
        {
            proof {
                let t = opened@.take(j + 1);
                assert(t =~= opened@.take(j as int).push(opened@[j as int]));
                if opened@[j as int] == s {
                    assert(t[j as int] == s);
                } else if t.contains(s) {
                    let i = choose|i: int| 0 <= i < t.len() && t[i] == s;
                    assert(i != j);
                    assert(opened@.take(j as int)[i] == s);
                }
            }
            if opened[j] == s {
                known = true;
            }
            j = j + 1;
        }
        assert(opened@.take(j as int) =~= opened@);
        if !known {
            u.push(s);
        }
        proof {
            assert(u@ =~= unaware_servers(servers@.take(k + 1), opened@));
        }
        k = k + 1;
    }
    assert(servers@.take(k as int) =~= servers@);
    if u.len() == 0 {
        EditorAction { handler, did_open: DidOpenPlan::Nothing }
    } else if handler == Handler::DidChange {
        EditorAction { handler, did_open: DidOpenPlan::WithDraft(u) }
    } else {
        EditorAction { handler, did_open: DidOpenPlan::WithCachedText(u) }
    }
}


// ---------------------------------------------------------------------------
// Routing a request to servers

/// A running server as values.
pub struct ServerModel {
    pub name: Seq<char>,
    pub initialized: bool,
    pub workspace_folders: bool,
    pub roots: Seq<Seq<char>>,
}

pub open spec fn server_model(s: RunningServer) -> ServerModel {
    ServerModel {
        name: s.name@,
        initialized: s.initialized,
        workspace_folders: s.workspace_folders,
        roots: s.roots@.map_values(|r: String| r@),
    }
}

/// Whether a running server serves requests for server `name` at `root`;
/// see `serves`.
pub open spec fn serves_model(s: ServerModel, name: Seq<char>, root: Seq<char>) -> bool {
    &&& s.name == name
    &&& s.initialized
    &&& (s.workspace_folders || s.roots.contains(root))
}

/// What the controller knows when it routes requests: its session, the
/// buffers and server commands it has disabled, the server it chose for
/// each server name and root, and the running servers (by number).
pub struct RoutingState {
    pub session: String,
    pub buffer_tombstones: Vec<String>,
    pub server_tombstones: Vec<String>,
    pub route_cache: Vec<(String, String, usize)>,
    pub servers: Vec<RunningServer>,
}

/// A server a request is for: its name, the root it is for, and the command
/// that runs it.
pub struct ServerAddress {
    pub name: String,
    pub root: String,
    pub command: String,
}

/// What routing needs of a request: its session, its buffer, whether the
/// editor waits for its answer, and the servers it is for.
pub struct RequestMeta {
    pub session: String,
    pub buffile: String,
    pub has_fifo: bool,
    pub servers: Vec<ServerAddress>,
}

/// The server chosen for an address: the one chosen before for it, a
/// running one that serves it (which from now on serves its root), or a new
/// one, started under this number.
#[derive(Clone, Copy, Debug, PartialEq, Eq, Structural)]
pub enum ServerChoice {
    Cached(usize),
    Shared(usize),
    Start(usize),
}

/// Where a request goes.
pub enum Route {
    /// The editor's session ended: the servers are shut down.
    StopSession,
    /// The request is for another session: this one shuts down.
    SessionMismatch,
    /// The exit of the servers: handled without servers.
    Unrouted,
    /// A scratch buffer (no file): reported.
    ScratchBuffer,
    /// A buffer disabled earlier: reported.
    Blocked,
    /// A server the request needs was disabled: the buffer is disabled.
    DisabledServer,
    /// The servers chosen; the request is parked while one of them is not
    /// initialized, and the parking is reported unless the editor waits for
    /// the answer or the request only tells of the buffer.
    Routed { choices: Vec<ServerChoice>, parked: bool, report_parked: bool },
}

/// A route as values.
pub enum RouteView {
    StopSession,
    SessionMismatch,
    Unrouted,
    ScratchBuffer,
    Blocked,
    DisabledServer,
    Routed { choices: Seq<ServerChoice>, parked: bool, report_parked: bool },
}

impl Route {
    pub open spec fn view(&self) -> RouteView {
        match self {
            Route::StopSession => RouteView::StopSession,
            Route::SessionMismatch => RouteView::SessionMismatch,
            Route::Unrouted => RouteView::Unrouted,
            Route::ScratchBuffer => RouteView::ScratchBuffer,
            Route::Blocked => RouteView::Blocked,
            Route::DisabledServer => RouteView::DisabledServer,
            Route::Routed { choices, parked, report_parked } => RouteView::Routed {
                choices: choices@,
                parked: *parked,
                report_parked: *report_parked,
            },
        }
    }
}

/// The routing tables as values: the cache of choices, and the servers.
pub struct Tables {
    pub cache: Seq<(Seq<char>, Seq<char>, usize)>,
    pub servers: Seq<ServerModel>,
}

pub open spec fn cache_view(c: Seq<(String, String, usize)>) -> Seq<(Seq<char>, Seq<char>, usize)> {
    c.map_values(|e: (String, String, usize)| (e.0@, e.1@, e.2))
}

pub open spec fn servers_view(s: Seq<RunningServer>) -> Seq<ServerModel> {
    s.map_values(|r: RunningServer| server_model(r))
}

/// The first choice cached for a name and root.
pub open spec fn cache_find(c: Seq<(Seq<char>, Seq<char>, usize)>, name: Seq<char>, root: Seq<char>) -> Option<usize>
    decreases c.len(),
{
    if c.len() == 0 {
        None
    } else {
        match cache_find(c.drop_last(), name, root) {
            Some(i) => Some(i),
            None => if c.last().0 == name && c.last().1 == root { Some(c.last().2) } else { None },
        }
    }
}

/// The first running server that serves a name and root.
pub open spec fn first_serving(s: Seq<ServerModel>, name: Seq<char>, root: Seq<char>) -> Option<int>
    decreases s.len(),
{
    if s.len() == 0 {
        None
    } else {
        match first_serving(s.drop_last(), name, root) {
            Some(i) => Some(i),
            None => if serves_model(s.last(), name, root) { Some(s.len() - 1) } else { None },
        }
    }
}

/// The tables after choosing a server for one more address, and the choice
/// (none when the address needs a disabled server).
pub open spec fn choose_step(t: Tables, name: Seq<char>, root: Seq<char>, command: Seq<char>, tombstones: Seq<Seq<char>>) -> (Tables, Option<ServerChoice>) {
    match cache_find(t.cache, name, root) {
        Some(id) => (t, Some(ServerChoice::Cached(id))),
        None => match first_serving(t.servers, name, root) {
            Some(i) => {
                let s = t.servers[i];
                (
                    Tables {
                        cache: t.cache.push((name, root, i as usize)),
                        servers: t.servers.update(i, ServerModel { roots: s.roots.push(root), ..s }),
                    },
                    Some(ServerChoice::Shared(i as usize)),
                )
            },
            None => if tombstones.contains(command) {
                (t, None)
            } else {
                let id = t.servers.len() as usize;
                (
                    Tables {
                        cache: t.cache.push((name, root, id)),
                        servers: t.servers.push(ServerModel { name, initialized: false, workspace_folders: false, roots: seq![root] }),
                    },
                    Some(ServerChoice::Start(id)),
                )
            },
        },
    }
}

/// An address as values.
pub open spec fn addresses_view(a: Seq<ServerAddress>) -> Seq<(Seq<char>, Seq<char>, Seq<char>)> {
    a.map_values(|x: ServerAddress| (x.name@, x.root@, x.command@))
}

/// The tables and choices after the first `n` addresses, in turn, and
/// whether an address needed a disabled server (the addresses after it are
/// left alone).
pub open spec fn choose_servers(t: Tables, addrs: Seq<(Seq<char>, Seq<char>, Seq<char>)>, tombstones: Seq<Seq<char>>, n: int) -> (Tables, Seq<ServerChoice>, bool)
    decreases n,
{
    if n <= 0 {
        (t, Seq::empty(), false)
    } else {
        let (t1, cs, disabled) = choose_servers(t, addrs, tombstones, n - 1);
        if disabled {
            (t1, cs, true)
        } else {
            let (t2, c) = choose_step(t1, addrs[n - 1].0, addrs[n - 1].1, addrs[n - 1].2, tombstones);
            match c {
                Some(c) => (t2, cs.push(c), false),
                None => (t1, cs, true),
            }
        }
    }
}

/// Whether a chosen server is not initialized yet.
pub open spec fn uninitialized(t: Tables, c: ServerChoice) -> bool {
    match c {
        ServerChoice::Cached(id) => id < t.servers.len() && !t.servers[id as int].initialized,
        ServerChoice::Shared(id) => id < t.servers.len() && !t.servers[id as int].initialized,
        ServerChoice::Start(_) => true,
    }
}

/// Whether a request only tells servers of the buffer (or asks for code
/// lenses), so that parking it goes unreported.
pub open spec fn quiet_when_parked(h: Handler) -> bool {
    h == Handler::DidOpen || h == Handler::DidChange || h == Handler::DidChangeConfiguration || h == Handler::DidClose
        || h == Handler::DidSave || h == Handler::CodeLens
}

/// Where a request goes: the end of the session, a request for another
/// session, the servers' exit (unrouted), a scratch buffer, a disabled
/// buffer, a disabled server, or the servers chosen for its addresses in
/// turn, with whether it is parked (one of them is not initialized, the
/// tables being those before the request) and whether that is reported.
pub open spec fn route_of(
    session: Seq<char>,
    buffer_tombstones: Seq<Seq<char>>,
    server_tombstones: Seq<Seq<char>>,
    t: Tables,
    meta_session: Seq<char>,
    buffile: Seq<char>,
    has_fifo: bool,
    addrs: Seq<(Seq<char>, Seq<char>, Seq<char>)>,
    method: Seq<char>,
) -> RouteView {
    if method == "kakoune/exit"@ {
        RouteView::StopSession
    } else if method == "exit"@ {
        RouteView::Unrouted
    } else if meta_session.len() > 0 && meta_session != session {
        RouteView::SessionMismatch
    } else if buffile.len() == 0 || buffile[0] != '/' {
        RouteView::ScratchBuffer
    } else if buffer_tombstones.contains(buffile) {
        RouteView::Blocked
    } else {
        let (t2, cs, disabled) = choose_servers(t, addrs, server_tombstones, addrs.len() as int);
        if disabled {
            RouteView::DisabledServer
        } else {
            let parked = exists|k: int| 0 <= k < cs.len() && uninitialized(t2, #[trigger] cs[k]);
            RouteView::Routed {
                choices: cs,
                parked,
                report_parked: parked && !has_fifo && !quiet_when_parked(handler_of(method)),
            }
        }
    }
}

/// Whether a request is routed to servers (and may change the tables).
pub open spec fn reaches_servers(session: Seq<char>, buffer_tombstones: Seq<Seq<char>>, meta_session: Seq<char>, buffile: Seq<char>, method: Seq<char>) -> bool {
    !(method == "kakoune/exit"@ || method == "exit"@ || (meta_session.len() > 0 && meta_session != session) || buffile.len()
        == 0 || buffile[0] != '/' || buffer_tombstones.contains(buffile))
}

/// The texts of a list.
pub open spec fn texts(v: Seq<String>) -> Seq<Seq<char>> {
    v.map_values(|s: String| s@)
}

/// The tables of a state.
pub open spec fn tables_of(st: RoutingState) -> Tables {
    Tables { cache: cache_view(st.route_cache@), servers: servers_view(st.servers@) }
}

fn copy_text(s: &str) -> (res: String)
    ensures
        res@ == s@,
{
    let mut out = String::new();
    crate::strings::push_str(&mut out, s);
    out
}

fn holds_text(v: &Vec<String>, s: &str) -> (res: bool)
    ensures
        res == texts(v@).contains(s@),
{
    let mut k: usize = 0;
    while k < v.len()
        invariant
            k <= v.len(),
            forall|j: int| 0 <= j < k ==> v@[j]@ != s@,
        decreases v.len() - k,
    {
        if str_eq(v[k].as_str(), s) {
            assert(texts(v@)[k as int] == s@);
            return true;
        }
        k = k + 1;
    }
    proof {
        if texts(v@).contains(s@) {
            let j = choose|j: int| 0 <= j < texts(v@).len() && texts(v@)[j] == s@;
            assert(v@[j]@ == s@);
        }
    }
    false
}

proof fn lemma_cache_find(c: Seq<(Seq<char>, Seq<char>, usize)>, name: Seq<char>, root: Seq<char>)
    ensures
        match cache_find(c, name, root) {
            Some(id) => exists|i: int| 0 <= i < c.len() && c[i].0 == name && c[i].1 == root && c[i].2 == id
                && forall|j: int| 0 <= j < i ==> !(c[j].0 == name && c[j].1 == root),
            None => forall|j: int| 0 <= j < c.len() ==> !(c[j].0 == name && c[j].1 == root),
        },
    decreases c.len(),
{
    if c.len() > 0 {
        let d = c.drop_last();
        lemma_cache_find(d, name, root);
        assert forall|j: int| 0 <= j < d.len() implies d[j] == c[j] by {}
        if cache_find(d, name, root) is Some {
            let i = choose|i: int| 0 <= i < d.len() && d[i].0 == name && d[i].1 == root && d[i].2 == cache_find(d, name, root)->0
                && forall|j: int| 0 <= j < i ==> !(d[j].0 == name && d[j].1 == root);
            assert(c[i] == d[i]);
        }
    }
}

fn cache_lookup(c: &Vec<(String, String, usize)>, name: &str, root: &str) -> (res: Option<usize>)
    ensures
        res == cache_find(cache_view(c@), name@, root@),
{
    let ghost cv = cache_view(c@);
    proof {
        lemma_cache_find(cv, name@, root@);
    }
    let mut k: usize = 0;
    while k < c.len()
        invariant
            k <= c.len(),
            cv == cache_view(c@),
            forall|j: int| 0 <= j < k ==> !(cv[j].0 == name@ && cv[j].1 == root@),
        decreases c.len() - k,
    {
        proof {
            assert(cv[k as int] == (c@[k as int].0@, c@[k as int].1@, c@[k as int].2));
        }
        if str_eq(c[k].0.as_str(), name) && str_eq(c[k].1.as_str(), root) {
            proof {
                lemma_cache_find(cv, name@, root@);
                if cache_find(cv, name@, root@) is Some {
                    let i = choose|i: int| 0 <= i < cv.len() && cv[i].0 == name@ && cv[i].1 == root@ && cv[i].2 == cache_find(cv, name@, root@)->0
                        && forall|j: int| 0 <= j < i ==> !(cv[j].0 == name@ && cv[j].1 == root@);
                    assert(i == k);
                }
            }
            return Some(c[k].2);
        }
        k = k + 1;
    }
    None
}

proof fn lemma_first_serving(s: Seq<ServerModel>, name: Seq<char>, root: Seq<char>)
    ensures
        match first_serving(s, name, root) {
            Some(i) => 0 <= i < s.len() && serves_model(s[i], name, root) && forall|j: int| 0 <= j < i ==> !serves_model(s[j], name, root),
            None => forall|j: int| 0 <= j < s.len() ==> !serves_model(s[j], name, root),
        },
    decreases s.len(),
{
    if s.len() > 0 {
        let d = s.drop_last();
        lemma_first_serving(d, name, root);
        assert forall|j: int| 0 <= j < d.len() implies d[j] == s[j] by {}
    }
}

proof fn lemma_serves_model(s: RunningServer, name: Seq<char>, root: Seq<char>)
    ensures
        serves(s, name, root) == serves_model(server_model(s), name, root),
{
    let rv = s.roots@.map_values(|r: String| r@);
    if serves(s, name, root) && !s.workspace_folders {
        let k = choose|k: int| 0 <= k < s.roots.len() && (#[trigger] s.roots@[k])@ == root;
        assert(rv[k] == root);
    }
    if rv.contains(root) {
        let k = choose|k: int| 0 <= k < rv.len() && rv[k] == root;
        assert(s.roots@[k]@ == root);
    }
}

fn serving_index(servers: &Vec<RunningServer>, name: &str, root: &str) -> (res: Option<usize>)
    ensures
        match res {
            Some(i) => first_serving(servers_view(servers@), name@, root@) == Some(i as int) && i < servers.len(),
            None => first_serving(servers_view(servers@), name@, root@) is None,
        },
{
    let ghost sv = servers_view(servers@);
    proof {
        lemma_first_serving(sv, name@, root@);
    }
    let mut k: usize = 0;
    while k < servers.len()
        invariant
            k <= servers.len(),
            sv == servers_view(servers@),
            forall|j: int| 0 <= j < k ==> !serves_model(sv[j], name@, root@),
        decreases servers.len() - k,
    {
        proof {
            lemma_serves_model(servers@[k as int], name@, root@);
            assert(sv[k as int] == server_model(servers@[k as int]));
        }
        if can_serve(&servers[k], name, root) {
            proof {
                lemma_first_serving(sv, name@, root@);
            }
            return Some(k);
        }
        k = k + 1;
    }
    None
}

/// Chooses the servers for one more address and updates the tables; see
/// `choose_step`.
fn choose_one(state: &mut RoutingState, addr: &ServerAddress) -> (res: Option<ServerChoice>)
    ensures
        (tables_of(*final(state)), res) == choose_step(tables_of(*old(state)), addr.name@, addr.root@, addr.command@, texts(old(state).server_tombstones@)),
        final(state).session == old(state).session,
        final(state).buffer_tombstones == old(state).buffer_tombstones,
        final(state).server_tombstones == old(state).server_tombstones,
{
    let ghost t0 = tables_of(*state);
    if let Some(id) = cache_lookup(&state.route_cache, addr.name.as_str(), addr.root.as_str()) {
        return Some(ServerChoice::Cached(id));
    }
    match serving_index(&state.servers, addr.name.as_str(), addr.root.as_str()) {
        Some(i) => {
            let ghost sv = servers_view(state.servers@);
            let mut s = state.servers.remove(i);
            let ghost before = s.roots@;
            s.roots.push(copy_text(addr.root.as_str()));
            state.servers.insert(i, s);
            state.route_cache.push((copy_text(addr.name.as_str()), copy_text(addr.root.as_str()), i));
            proof {
                assert(server_model(state.servers@[i as int]).roots =~= sv[i as int].roots.push(addr.root@));
                assert(servers_view(state.servers@) =~= sv.update(i as int, ServerModel { roots: sv[i as int].roots.push(addr.root@), ..sv[i as int] }));
                assert(cache_view(state.route_cache@) =~= t0.cache.push((addr.name@, addr.root@, i)));
            }
            Some(ServerChoice::Shared(i))
        },
        None => {
            if holds_text(&state.server_tombstones, addr.command.as_str()) {
                return None;
            }
            let id = state.servers.len();
            let mut roots: Vec<String> = Vec::new();
            roots.push(copy_text(addr.root.as_str()));
            let fresh = RunningServer { name: copy_text(addr.name.as_str()), initialized: false, workspace_folders: false, roots };
            state.servers.push(fresh);
            state.route_cache.push((copy_text(addr.name.as_str()), copy_text(addr.root.as_str()), id));
            proof {
                assert(server_model(state.servers@[id as int]).roots =~= seq![addr.root@]);
                assert(servers_view(state.servers@) =~= t0.servers.push(
                    ServerModel { name: addr.name@, initialized: false, workspace_folders: false, roots: seq![addr.root@] },
                ));
                assert(cache_view(state.route_cache@) =~= t0.cache.push((addr.name@, addr.root@, id)));
            }
            Some(ServerChoice::Start(id))
        },
    }
}

/// Whether a choice's server is not initialized; see `uninitialized`.
fn choice_uninitialized(state: &RoutingState, c: ServerChoice) -> (res: bool)
    ensures
        res == uninitialized(tables_of(*state), c),
{
    match c {
        ServerChoice::Cached(id) | ServerChoice::Shared(id) => {
            if id < state.servers.len() {
                proof {
                    assert(tables_of(*state).servers[id as int] == server_model(state.servers@[id as int]));
                }
                !state.servers[id].initialized
            } else {
                false
            }
        },
        ServerChoice::Start(_) => true,
    }
}

/// Routes a request, updating the tables as servers are chosen; see
/// `route_of`.
pub fn route(state: &mut RoutingState, meta: &RequestMeta, method: &str) -> (res: Route)
    ensures
        res@ == route_of(
            old(state).session@,
            texts(old(state).buffer_tombstones@),
            texts(old(state).server_tombstones@),
            tables_of(*old(state)),
            meta.session@,
            meta.buffile@,
            meta.has_fifo,
            addresses_view(meta.servers@),
            method@,
        ),
        tables_of(*final(state)) == if reaches_servers(old(state).session@, texts(old(state).buffer_tombstones@), meta.session@, meta.buffile@, method@) {
            choose_servers(tables_of(*old(state)), addresses_view(meta.servers@), texts(old(state).server_tombstones@), meta.servers.len() as int).0
        } else {
            tables_of(*old(state))
        },
{
    proof {
        reveal_strlit("kakoune/exit");
        reveal_strlit("exit");
    }
    if str_eq(method, "kakoune/exit") {
        return Route::StopSession;
    }
    if str_eq(method, "exit") {
        return Route::Unrouted;
    }
    if meta.session.as_str().unicode_len() > 0 && !str_eq(meta.session.as_str(), state.session.as_str()) {
        return Route::SessionMismatch;
    }
    let file = chars_of(meta.buffile.as_str());
    if file.len() == 0 || file[0] != '/' {
        return Route::ScratchBuffer;
    }
    if holds_text(&state.buffer_tombstones, meta.buffile.as_str()) {
        return Route::Blocked;
    }
    let ghost t0 = tables_of(*state);
    let ghost av = addresses_view(meta.servers@);
    let ghost tomb = texts(state.server_tombstones@);
    proof {
        assert(file@ == meta.buffile@);
        assert(reaches_servers(state.session@, texts(state.buffer_tombstones@), meta.session@, meta.buffile@, method@));
    }
    let mut choices: Vec<ServerChoice> = Vec::new();
    let mut k: usize = 0;
    while k < meta.servers.len()
        invariant
            k <= meta.servers.len(),
            t0 == tables_of(*old(state)),
            state.session == old(state).session,
            state.buffer_tombstones == old(state).buffer_tombstones,
            state.server_tombstones == old(state).server_tombstones,
            reaches_servers(old(state).session@, texts(old(state).buffer_tombstones@), meta.session@, meta.buffile@, method@),
            av == addresses_view(meta.servers@),
            tomb == texts(state.server_tombstones@),
            choose_servers(t0, av, tomb, k as int) == (tables_of(*state), choices@, false),
        decreases meta.servers.len() - k,
    {
        let a = &meta.servers[k];
        proof {
            assert(av[k as int] == (a.name@, a.root@, a.command@));
        }
        let ghost before = tables_of(*state);
        let ghost cs0 = choices@;
        match choose_one(state, a) {
            Some(c) => {
                choices.push(c);
            },
            None => {
                proof {
                    assert(choose_servers(t0, av, tomb, k + 1) == (before, cs0, true));
                    lemma_choose_disabled(t0, av, tomb, k + 1, av.len() as int);
                }
                return Route::DisabledServer;
            },
        }
        k = k + 1;
    }
    let mut parked = false;
    let mut j: usize = 0;
    while j < choices.len()
        invariant
            j <= choices.len(),
            parked == exists|i: int| 0 <= i < j && uninitialized(tables_of(*state), #[trigger] choices@[i]),
        decreases choices.len() - j,
    {
        if choice_uninitialized(state, choices[j]) {
            parked = true;
        }
        j = j + 1;
    }
    let h = handler_for(method);
    let quiet = h == Handler::DidOpen || h == Handler::DidChange || h == Handler::DidChangeConfiguration || h == Handler::DidClose
        || h == Handler::DidSave || h == Handler::CodeLens;
    Route::Routed { choices, parked, report_parked: parked && !meta.has_fifo && !quiet }
}

/// Once an address needs a disabled server, the addresses after it change
/// nothing.
proof fn lemma_choose_disabled(t: Tables, addrs: Seq<(Seq<char>, Seq<char>, Seq<char>)>, tombstones: Seq<Seq<char>>, n: int, m: int)
    requires
        0 <= n <= m,
        choose_servers(t, addrs, tombstones, n).2,
    ensures
        choose_servers(t, addrs, tombstones, m) == choose_servers(t, addrs, tombstones, n),
    decreases m - n,
{
    if n < m {
        lemma_choose_disabled(t, addrs, tombstones, n, m - 1);
    }
}

} // verus!
