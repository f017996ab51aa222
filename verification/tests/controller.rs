use kak_lsp::controller::{
    editor_action, handler_for, incoming_decision, pending_ready, route, IncomingDecision, DidOpenPlan, DocumentState, Handler, RequestMeta, Route, RoutingState,
    RunningServer, ServerAddress, ServerChoice,
};

fn state() -> RoutingState {
    RoutingState {
        session: "s1".to_string(),
        buffer_tombstones: vec!["/blocked.rs".to_string()],
        server_tombstones: vec!["broken-ls".to_string()],
        route_cache: vec![("rust-analyzer".to_string(), "/p".to_string(), 0)],
        servers: vec![
            RunningServer { name: "rust-analyzer".to_string(), initialized: true, workspace_folders: false, roots: vec!["/p".to_string()] },
            RunningServer { name: "clangd".to_string(), initialized: true, workspace_folders: true, roots: vec!["/c".to_string()] },
        ],
    }
}

fn address(name: &str, root: &str, command: &str) -> ServerAddress {
    ServerAddress { name: name.to_string(), root: root.to_string(), command: command.to_string() }
}

fn meta(buffile: &str, has_fifo: bool, servers: Vec<ServerAddress>) -> RequestMeta {
    RequestMeta { session: "s1".to_string(), buffile: buffile.to_string(), has_fifo, servers }
}

#[test]
fn methods_go_to_their_handlers() {
    assert_eq!(handler_for("textDocument/hover"), Handler::Hover);
    assert_eq!(handler_for("kakoune/object"), Handler::Object);
    assert_eq!(handler_for("$ccls/vars"), Handler::CclsVars);
    assert_eq!(handler_for("exit"), Handler::Exit);
    assert_eq!(handler_for("textDocument/nonsense"), Handler::Unsupported);
}

#[test]
fn servers_not_told_of_the_buffer_are_told_first() {
    let doc = DocumentState { buffile: "/p/a.rs".to_string(), opened_in_servers: Some(vec![0]) };
    let a = editor_action("textDocument/hover", &doc, &vec![0, 1, 2]);
    assert_eq!(a.handler, Handler::Hover);
    match a.did_open {
        DidOpenPlan::WithCachedText(s) => assert_eq!(s, vec![1, 2]),
        _ => panic!("expected the cached text"),
    }
    match editor_action("textDocument/didChange", &doc, &vec![0, 3]).did_open {
        DidOpenPlan::WithDraft(s) => assert_eq!(s, vec![3]),
        _ => panic!("expected the draft"),
    }
    assert!(matches!(editor_action("textDocument/hover", &doc, &vec![0]).did_open, DidOpenPlan::Nothing));
    assert!(matches!(editor_action("textDocument/didOpen", &doc, &vec![1]).did_open, DidOpenPlan::Nothing));
    let closed = DocumentState { buffile: "/p/b.rs".to_string(), opened_in_servers: None };
    assert!(matches!(editor_action("workspace/didChangeConfiguration", &closed, &vec![1]).did_open, DidOpenPlan::Nothing));
    let none = DocumentState { buffile: "".to_string(), opened_in_servers: None };
    assert!(matches!(editor_action("capabilities", &none, &vec![1]).did_open, DidOpenPlan::Nothing));
}

#[test]
fn requests_are_routed_to_servers() {
    let mut st = state();
    let m = meta("/p/a.rs", false, vec![address("rust-analyzer", "/p", "ra"), address("clangd", "/x", "clangd")]);
    match route(&mut st, &m, "textDocument/hover") {
        Route::Routed { choices, parked, report_parked } => {
            assert_eq!(choices, vec![ServerChoice::Cached(0), ServerChoice::Shared(1)]);
            assert!(!parked && !report_parked);
        }
        _ => panic!("expected a route"),
    }
    assert_eq!(st.servers[1].roots, vec!["/c".to_string(), "/x".to_string()]);
    assert_eq!(st.route_cache.len(), 2);

    let m = meta("/q/a.py", false, vec![address("pylsp", "/q", "pylsp"), address("pylsp", "/q", "pylsp")]);
    match route(&mut st, &m, "textDocument/hover") {
        Route::Routed { choices, parked, report_parked } => {
            assert_eq!(choices, vec![ServerChoice::Start(2), ServerChoice::Cached(2)]);
            assert!(parked && report_parked);
        }
        _ => panic!("expected a route"),
    }
    assert_eq!(st.servers.len(), 3);
    assert!(!st.servers[2].initialized);
    let m = meta("/q/a.py", true, vec![address("pylsp", "/q", "pylsp")]);
    match route(&mut st, &m, "textDocument/hover") {
        Route::Routed { parked, report_parked, .. } => assert!(parked && !report_parked),
        _ => panic!("expected a route"),
    }
    let m = meta("/q/a.py", false, vec![address("pylsp", "/q", "pylsp")]);
    match route(&mut st, &m, "textDocument/didChange") {
        Route::Routed { parked, report_parked, .. } => assert!(parked && !report_parked),
        _ => panic!("expected a route"),
    }
}

#[test]
fn some_requests_are_not_routed() {
    let mut st = state();
    let m = meta("/p/a.rs", false, vec![]);
    assert!(matches!(route(&mut st, &m, "kakoune/exit"), Route::StopSession));
    assert!(matches!(route(&mut st, &m, "exit"), Route::Unrouted));
    let other = RequestMeta { session: "s2".to_string(), buffile: "/p/a.rs".to_string(), has_fifo: false, servers: vec![] };
    assert!(matches!(route(&mut st, &other, "textDocument/hover"), Route::SessionMismatch));
    assert!(matches!(route(&mut st, &meta("*scratch*", false, vec![]), "textDocument/hover"), Route::ScratchBuffer));
    assert!(matches!(route(&mut st, &meta("/blocked.rs", false, vec![]), "textDocument/hover"), Route::Blocked));
    let m = meta("/z/a.c", false, vec![address("broken", "/z", "broken-ls")]);
    assert!(matches!(route(&mut st, &m, "textDocument/hover"), Route::DisabledServer));
    assert_eq!(st.servers.len(), 2);
}

#[test]
fn requests_on_newer_buffers_wait() {
    // The buffer known is at version 3; a hover made on version 4 waits.
    assert_eq!(incoming_decision("textDocument/hover", "/a.rs", 4, Some(3)), IncomingDecision::WaitForBuffer);
    // An unknown buffer counts as version 0.
    assert_eq!(incoming_decision("textDocument/hover", "/a.rs", 1, None), IncomingDecision::WaitForBuffer);
    // Same version, or no file: handled now.
    assert_eq!(
        incoming_decision("textDocument/hover", "/a.rs", 3, Some(3)),
        IncomingDecision::Dispatch { version_bump: false }
    );
    assert_eq!(incoming_decision("textDocument/hover", "", 4, Some(3)), IncomingDecision::Dispatch { version_bump: false });
    // Changes and completion resolution never wait; changes bump the version.
    assert_eq!(
        incoming_decision("textDocument/didChange", "/a.rs", 4, Some(3)),
        IncomingDecision::Dispatch { version_bump: true }
    );
    assert_eq!(
        incoming_decision("completionItem/resolve", "/a.rs", 4, Some(3)),
        IncomingDecision::Dispatch { version_bump: false }
    );
    assert_eq!(
        incoming_decision("textDocument/didOpen", "/a.rs", 1, None),
        IncomingDecision::Dispatch { version_bump: true }
    );
}

#[test]
fn waiting_requests_are_released_by_their_version() {
    assert!(!pending_ready(Some(3), 4));
    assert!(pending_ready(Some(4), 4));
    assert!(pending_ready(Some(5), 4));
    assert!(!pending_ready(None, 4));
}
