use kak_lsp::editor_request::RequestParseError;
use kak_lsp::language_features::code_action::CodeActionFilter;
use kak_lsp::request_params::{parse_request_params, parse_toml_value, RequestIdValue, RequestParams, TomlValue};
use kak_lsp::types::KakounePosition;

fn words(ws: &[&str]) -> Vec<String> {
    ws.iter().map(|w| w.to_string()).collect()
}

#[test]
fn hover_parameters_are_read() {
    let ws = words(&["m", "1.1,1.5", "4", "", "rest"]);
    match parse_request_params("textDocument/hover", &ws, 1) {
        Ok((RequestParams::Hover { selection_desc, tabstop, hover_client }, next)) => {
            assert_eq!(selection_desc, "1.1,1.5");
            assert_eq!(tabstop, 4);
            assert_eq!(hover_client, None);
            assert_eq!(next, 4);
        }
        _ => panic!("expected hover parameters"),
    }
}

#[test]
fn code_action_filters_are_decoded() {
    let ws = words(&["1.1,1.5", "2", "true", "is-sync", "only", "quickfix", "refactor", "/tmp/fifo"]);
    match parse_request_params("textDocument/codeAction", &ws, 0) {
        Ok((RequestParams::CodeActions { selection_desc, perform_code_action, filters, response_fifo }, next)) => {
            assert_eq!(selection_desc, "1.1,1.5");
            assert!(perform_code_action);
            match filters {
                Some(CodeActionFilter::ByKind(kinds)) => assert_eq!(kinds, vec!["quickfix".to_string(), "refactor".to_string()]),
                _ => panic!("expected kinds"),
            }
            assert_eq!(response_fifo, Some("/tmp/fifo".to_string()));
            assert_eq!(next, 8);
        }
        _ => panic!("expected code-action parameters"),
    }
    // No kinds means no filter; a request that does not wait has no fifo.
    let ws = words(&["1.1,1.5", "0", "false", "async", "only"]);
    match parse_request_params("textDocument/codeAction", &ws, 0) {
        Ok((RequestParams::CodeActions { filters, response_fifo, .. }, next)) => {
            assert!(filters.is_none());
            assert!(response_fifo.is_none());
            assert_eq!(next, 5);
        }
        _ => panic!("expected code-action parameters"),
    }
    let ws = words(&["1.1,1.5", "0", "false", "async", "matching", "^Fix"]);
    match parse_request_params("textDocument/codeAction", &ws, 0) {
        Ok((RequestParams::CodeActions { filters: Some(CodeActionFilter::ByRegex(p)), .. }, 6)) => assert_eq!(p, "^Fix"),
        _ => panic!("expected a pattern filter"),
    }
    let ws = words(&["1.1,1.5", "0", "false", "async", "some"]);
    assert_eq!(parse_request_params("textDocument/codeAction", &ws, 0).err(), Some(RequestParseError::BadWord { index: 4 }));
    let ws = words(&["1.1,1.5", "3", "false", "async", "only", "quickfix"]);
    assert_eq!(parse_request_params("textDocument/codeAction", &ws, 0).err(), Some(RequestParseError::Incomplete));
}

#[test]
fn numbers_keep_to_their_types() {
    assert_eq!(parse_request_params("textDocument/inlayHint", &words(&["-1"]), 0).err(), Some(RequestParseError::BadNumber { index: 0 }));
    assert_eq!(parse_request_params("textDocument/inlayHint", &words(&["4294967296"]), 0).err(), Some(RequestParseError::BadNumber { index: 0 }));
    match parse_request_params("textDocument/inlayHint", &words(&["+12"]), 0) {
        Ok((RequestParams::InlayHint { buf_line_count: 12 }, 1)) => {}
        _ => panic!("expected a line count"),
    }
    assert_eq!(parse_request_params("$ccls/member", &words(&["1", "2", "256"]), 0).err(), Some(RequestParseError::BadNumber { index: 2 }));
    match parse_request_params("$ccls/member", &words(&["1", "2", "3"]), 0) {
        Ok((RequestParams::CclsMember { position, kind: 3 }, 3)) => assert_eq!(position, KakounePosition { line: 1, column: 2 }),
        _ => panic!("expected member parameters"),
    }
    // The resolution of no completion item is dropped.
    assert!(matches!(parse_request_params("completionItem/resolve", &words(&["7", "-1", "false"]), 0), Ok((RequestParams::Ignored, 3))));
    match parse_request_params("completionItem/resolve", &words(&["-7", "2", "true"]), 0) {
        Ok((RequestParams::CompletionItemResolve { timestamp: -7, index: 2, pager_active: true }, 3)) => {}
        _ => panic!("expected a completion item"),
    }
}

#[test]
fn sync_trailers_and_server_overrides() {
    let ws = words(&["4", "true", "is-sync", "rust-analyzer", "/tmp/f"]);
    match parse_request_params("textDocument/formatting", &ws, 0) {
        Ok((RequestParams::Formatting { tab_size: 4, insert_spaces: true, server_override, response_fifo }, 5)) => {
            assert_eq!(server_override, Some("rust-analyzer".to_string()));
            assert_eq!(response_fifo, Some("/tmp/f".to_string()));
        }
        _ => panic!("expected formatting parameters"),
    }
    let ws = words(&["4", "false", "2", "1.1,1.2", "3.1,3.2", "", "", "extra"]);
    match parse_request_params("textDocument/rangeFormatting", &ws, 0) {
        Ok((RequestParams::RangeFormatting { ranges, server_override: None, response_fifo: None, .. }, 7)) => {
            assert_eq!(ranges, vec!["1.1,1.2".to_string(), "3.1,3.2".to_string()])
        }
        _ => panic!("expected range formatting parameters"),
    }
}

#[test]
fn other_layouts() {
    match parse_request_params("kakoune/next-or-previous-symbol", &words(&["1", "3", "4", "previous", "hover", "Function"]), 0) {
        Ok((RequestParams::NextOrPrevSymbol { search_next: false, hover: true, symbol_kinds, .. }, 6)) => {
            assert_eq!(symbol_kinds, vec!["Function".to_string()])
        }
        _ => panic!("expected symbol navigation"),
    }
    assert_eq!(
        parse_request_params("kakoune/next-or-previous-symbol", &words(&["0", "3", "4", "back"]), 0).err(),
        Some(RequestParseError::BadWord { index: 3 })
    );
    match parse_request_params("workspace/didChangeConfiguration", &words(&["cfg", "a=1", "b=2", "map-end"]), 0) {
        Ok((RequestParams::DidChangeConfiguration { config, server_configuration }, 4)) => {
            assert_eq!(config, "cfg");
            assert_eq!(server_configuration, vec!["a=1".to_string(), "b=2".to_string()]);
        }
        _ => panic!("expected configuration"),
    }
    assert!(matches!(parse_request_params("workspace/symbol", &words(&["/a", "3", ""]), 0), Ok((RequestParams::Ignored, 3))));
    assert!(matches!(parse_request_params("kakoune/did-change-option", &words(&["lsp_debug=true"]), 0), Ok((RequestParams::DebugOption { debug: true }, 1))));
    assert!(matches!(parse_request_params("textDocument/didOpen", &words(&["12"]), 0), Ok((RequestParams::Draft { line_count: 12 }, 1))));
    assert!(matches!(parse_request_params("capabilities", &words(&[]), 0), Ok((RequestParams::NoParams, 0))));
    assert_eq!(parse_request_params("textDocument/nothing", &words(&[]), 0).err(), Some(RequestParseError::UnknownMethod));
}

#[test]
fn message_request_answers_are_parsed() {
    match parse_request_params("window/showMessageRequest/respond", &words(&["3", "title = 'Yes'"]), 0) {
        Ok((RequestParams::MessageRespond { message_request_id, item: Some(TomlValue::Table(entries)) }, 2)) => {
            assert_eq!(message_request_id, RequestIdValue::Num(3));
            assert_eq!(entries.len(), 1);
            assert_eq!(entries[0].0, "title");
            assert!(matches!(&entries[0].1, TomlValue::String(s) if s == "Yes"));
        }
        _ => panic!("expected an answer"),
    }
    match parse_request_params("window/showMessageRequest/respond", &words(&["\"abc\"", ""]), 0) {
        Ok((RequestParams::MessageRespond { message_request_id, item: None }, 2)) => {
            assert_eq!(message_request_id, RequestIdValue::Str("abc".to_string()))
        }
        _ => panic!("expected an answer"),
    }
    assert_eq!(
        parse_request_params("window/showMessageRequest/respond", &words(&["{", ""]), 0).err(),
        Some(RequestParseError::BadJson { index: 0 })
    );
    assert_eq!(
        parse_request_params("window/showMessageRequest/respond", &words(&["null", "= ="]), 0).err(),
        Some(RequestParseError::BadToml { index: 1 })
    );
    assert!(matches!(parse_toml_value("x = 1.5"), Some(TomlValue::Table(t)) if matches!(t[0].1, TomlValue::Float(bits) if bits == 1.5f64.to_bits())));
}
