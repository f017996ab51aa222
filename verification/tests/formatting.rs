use kak_lsp::capabilities::{Provider, ServerFeatures};
use kak_lsp::controller::{can_serve, RunningServer};
use kak_lsp::language_features::formatting::{plan_formatting, FormattingPlan, FormattingServer};

fn features(formatting: bool, range_formatting: bool) -> ServerFeatures {
    let flag = |b: bool| if b { Provider::Flag(true) } else { Provider::Absent };
    ServerFeatures {
        call_hierarchy: Provider::Absent,
        code_action: Provider::Absent,
        code_action_resolve: false,
        code_lens: false,
        completion: false,
        definition: Provider::Absent,
        document_highlight: Provider::Absent,
        document_symbol: Provider::Absent,
        execute_commands: None,
        formatting: flag(formatting),
        hover: Provider::Absent,
        implementation: Provider::Absent,
        inlay_hint: Provider::Absent,
        range_formatting: flag(range_formatting),
        references: Provider::Absent,
        rename: Provider::Absent,
        selection_range: Provider::Absent,
        semantic_tokens: None,
        signature_help: false,
        type_definition: Provider::Absent,
        workspace_symbol: Provider::Absent,
    }
}

fn running(name: &str, roots: &[&str], workspace_folders: bool) -> RunningServer {
    RunningServer {
        name: name.to_string(),
        initialized: true,
        workspace_folders,
        roots: roots.iter().map(|r| r.to_string()).collect(),
    }
}

fn server(name: &str, formatting: bool, range_formatting: bool) -> FormattingServer {
    FormattingServer { server: running(name, &["/p"], false), capabilities: Some(features(formatting, range_formatting)) }
}

#[test]
fn servers_serve_their_roots() {
    let s = running("clangd", &["/a", "/b"], false);
    assert!(can_serve(&s, "clangd", "/b"));
    assert!(!can_serve(&s, "clangd", "/c"));
    assert!(!can_serve(&s, "pylsp", "/a"));
    assert!(can_serve(&running("clangd", &[], true), "clangd", "/c"));
    let mut starting = running("clangd", &["/a"], true);
    starting.initialized = false;
    assert!(!can_serve(&starting, "clangd", "/a"));
}

#[test]
fn formatting_asks_the_one_able_server() {
    let servers = vec![server("a", false, true), server("b", true, false)];
    assert!(matches!(plan_formatting(&servers, false, false, &None), FormattingPlan::Request(1)));
    assert!(matches!(plan_formatting(&servers, true, false, &None), FormattingPlan::Request(0)));
}

#[test]
fn formatting_without_servers_answers_nop_when_waited_for() {
    let servers = vec![server("a", false, false)];
    assert!(matches!(plan_formatting(&servers, false, true, &None), FormattingPlan::Nop));
    assert!(matches!(plan_formatting(&servers, false, false, &None), FormattingPlan::Nothing));
    assert!(matches!(plan_formatting(&servers, true, true, &None), FormattingPlan::Nothing));
    let unknown = vec![FormattingServer { server: running("a", &["/p"], false), capabilities: None }];
    assert!(matches!(plan_formatting(&unknown, false, false, &None), FormattingPlan::Nothing));
}

#[test]
fn several_formatting_servers_give_a_menu() {
    let servers = vec![server("clangd", true, true), server("efm x", true, true)];
    match plan_formatting(&servers, false, true, &None) {
        FormattingPlan::Menu(m) => assert_eq!(
            m,
            "lsp-menu clangd 'lsp-formatting-sync clangd' 'efm x' 'lsp-formatting-sync efm x'"
        ),
        _ => panic!("expected a menu"),
    }
    match plan_formatting(&servers, true, false, &None) {
        FormattingPlan::Menu(m) => assert_eq!(
            m,
            "lsp-menu clangd 'lsp-range-formatting clangd' 'efm x' 'lsp-range-formatting efm x'"
        ),
        _ => panic!("expected a menu"),
    }
    let requested = Some(("efm x".to_string(), "/p".to_string()));
    assert!(matches!(plan_formatting(&servers, false, false, &requested), FormattingPlan::Request(1)));
    let elsewhere = Some(("efm x".to_string(), "/q".to_string()));
    assert!(matches!(plan_formatting(&servers, false, false, &elsewhere), FormattingPlan::Nothing));
}
