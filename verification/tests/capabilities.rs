use kak_lsp::capabilities::{encodings_to_offer, falls_back_from_utf8, negotiated_encoding};
use kak_lsp::types::OffsetEncoding;
use kak_lsp::capabilities::{
    capabilities_report, server_has_capability, str_less, Capability, Provider, SemanticLegend, ServerFeatures,
};

fn nothing() -> ServerFeatures {
    ServerFeatures {
        call_hierarchy: Provider::Absent,
        code_action: Provider::Absent,
        code_action_resolve: false,
        code_lens: false,
        completion: false,
        definition: Provider::Absent,
        document_highlight: Provider::Absent,
        document_symbol: Provider::Absent,
        execute_commands: None,
        formatting: Provider::Absent,
        hover: Provider::Absent,
        implementation: Provider::Absent,
        inlay_hint: Provider::Absent,
        range_formatting: Provider::Absent,
        references: Provider::Absent,
        rename: Provider::Absent,
        selection_range: Provider::Absent,
        semantic_tokens: None,
        signature_help: false,
        type_definition: Provider::Absent,
        workspace_symbol: Provider::Absent,
    }
}

#[test]
fn server_capability_flags_and_options() {
    let mut f = nothing();
    f.hover = Provider::Flag(true);
    f.definition = Provider::Options;
    f.rename = Provider::Flag(false);
    f.code_action = Provider::Options;
    let caps = Some(f);
    assert!(server_has_capability(&caps, Capability::Hover));
    assert!(server_has_capability(&caps, Capability::Definition));
    assert!(!server_has_capability(&caps, Capability::Rename));
    assert!(server_has_capability(&caps, Capability::CodeActions));
    assert!(!server_has_capability(&caps, Capability::CodeActionsResolve));
    assert!(!server_has_capability(&caps, Capability::SemanticTokens));
    assert!(!server_has_capability(&None, Capability::Hover));
    assert_eq!(Capability::Completion.label(), "lsp-completion (hooked on InsertIdle)");
}

#[test]
fn capabilities_report_single_server_sorted() {
    let mut f = nothing();
    f.hover = Provider::Flag(true);
    f.definition = Provider::Options;
    f.completion = true;
    f.code_action = Provider::Flag(false);
    f.execute_commands = Some(vec!["a".to_string(), "b".to_string()]);
    f.semantic_tokens = Some(SemanticLegend {
        token_types: vec!["type".to_string()],
        token_modifiers: vec!["static".to_string()],
    });
    let report = capabilities_report(&vec![("rust-analyzer".to_string(), f)]);
    assert_eq!(
        report,
        "info 'LSP commands supported by language servers (rust-analyzer):\n\n\
         lsp-completion (hooked on InsertIdle)\n\
         lsp-definition (mapped to `gd` by default)\n\
         lsp-diagnostics\n\
         lsp-execute-command: commands: [a, b]\n\
         lsp-hover\n\
         lsp-semantic-tokens: modifiers: [static]\n\
         lsp-semantic-tokens: types: [type]'"
    );
}

#[test]
fn capabilities_report_several_servers_lists_them() {
    let mut a = nothing();
    a.hover = Provider::Flag(true);
    let mut b = nothing();
    b.hover = Provider::Options;
    b.rename = Provider::Flag(true);
    b.document_symbol = Provider::Flag(true);
    let report = capabilities_report(&vec![("a".to_string(), a), ("b".to_string(), b)]);
    assert_eq!(
        report,
        "info 'LSP commands supported by language servers (a, b):\n\n\
         lsp-diagnostics [a, b]\n\
         lsp-document-symbol, lsp-object, lsp-goto-document-symbol [b]\n\
         lsp-hover [a, b]\n\
         lsp-rename [b]'"
    );
}

#[test]
fn capabilities_report_escapes_quotes() {
    let report = capabilities_report(&vec![("it's".to_string(), nothing())]);
    assert_eq!(report, "info 'LSP commands supported by language servers (it''s):\n\nlsp-diagnostics'");
}

#[test]
fn capabilities_report_without_servers() {
    let report = capabilities_report(&vec![]);
    assert_eq!(report, "info 'LSP commands supported by language servers ():\n\n'");
}

#[test]
fn text_order_is_by_chars() {
    assert!(str_less("lsp-definition", "lsp-diagnostics"));
    assert!(!str_less("lsp-diagnostics", "lsp-definition"));
    assert!(str_less("ab", "abc"));
    assert!(!str_less("abc", "abc"));
    assert!(str_less("", "a"));
}

#[test]
fn offset_encodings_offered_and_negotiated() {
    assert_eq!(encodings_to_offer(None), vec![OffsetEncoding::Utf8, OffsetEncoding::Utf16]);
    assert_eq!(encodings_to_offer(Some(OffsetEncoding::Utf16)), vec![OffsetEncoding::Utf16, OffsetEncoding::Utf8]);
    assert_eq!(OffsetEncoding::Utf8.name(), "utf-8");
    assert_eq!(negotiated_encoding(Some("utf-8"), Some("utf-16")), (OffsetEncoding::Utf8, false));
    assert_eq!(negotiated_encoding(None, Some("utf-8")), (OffsetEncoding::Utf8, false));
    assert_eq!(negotiated_encoding(None, None), (OffsetEncoding::Utf16, false));
    assert_eq!(negotiated_encoding(Some("utf-32"), None), (OffsetEncoding::Utf16, true));
    assert!(falls_back_from_utf8(Some(OffsetEncoding::Utf8), OffsetEncoding::Utf16));
    assert!(!falls_back_from_utf8(None, OffsetEncoding::Utf16));
}
