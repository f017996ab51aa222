use kak_lsp::editor_request::{parse_bool_word, parse_editor_request, parse_i32_word, RequestHead, RequestParseError};

fn words(ws: &[&str]) -> Vec<String> {
    ws.iter().map(|w| w.to_string()).collect()
}

#[test]
fn numbers_read_as_i32_does() {
    assert_eq!(parse_i32_word("42"), Some(42));
    assert_eq!(parse_i32_word("+7"), Some(7));
    assert_eq!(parse_i32_word("-2147483648"), Some(i32::MIN));
    assert_eq!(parse_i32_word("2147483647"), Some(i32::MAX));
    assert_eq!(parse_i32_word("2147483648"), None);
    assert_eq!(parse_i32_word("99999999999999999999"), None);
    assert_eq!(parse_i32_word(""), None);
    assert_eq!(parse_i32_word("-"), None);
    assert_eq!(parse_i32_word("1a"), None);
    assert_eq!(parse_bool_word("true"), Some(true));
    assert_eq!(parse_bool_word("True"), None);
}

#[test]
fn request_headers_are_read() {
    let ws = words(&[
        "s1", "client0", "false", "true", "/p/a.rs", "12", "rust", "rust", "servers", "tokens", "config", "a=1", "map-end",
        "textDocument/hover", "1", "2",
    ]);
    match parse_editor_request(&ws) {
        Ok(RequestHead::Request(h)) => {
            assert_eq!(h.session, "s1");
            assert_eq!(h.client, Some("client0".to_string()));
            assert!(!h.hook && h.sourcing);
            assert_eq!(h.buffile, "/p/a.rs");
            assert_eq!(h.version, 12);
            assert_eq!(h.lsp_servers, "servers");
            assert_eq!(h.server_initialization_options, vec!["a=1".to_string()]);
            assert_eq!(h.method, "textDocument/hover");
            assert_eq!(h.params_start, 14);
        }
        _ => panic!("expected a request"),
    }
    let ws = words(&["s1", "", "true", "false", "/a", "-1", "c", "c", "", "", "", "map-end", "capabilities"]);
    match parse_editor_request(&ws) {
        Ok(RequestHead::Request(h)) => {
            assert_eq!(h.client, None);
            assert_eq!(h.version, -1);
            assert!(h.server_initialization_options.is_empty());
        }
        _ => panic!("expected a request"),
    }
}

#[test]
fn bad_or_missing_words_stop_the_reading() {
    assert!(matches!(parse_editor_request(&words(&["$exit"])), Ok(RequestHead::Exit)));
    assert_eq!(parse_editor_request(&words(&[])).err(), Some(RequestParseError::Incomplete));
    assert_eq!(parse_editor_request(&words(&["s", "c", "yes"])).err(), Some(RequestParseError::BadBool { index: 2 }));
    assert_eq!(parse_editor_request(&words(&["s", "c", "true", "false", "/a"])).err(), Some(RequestParseError::Incomplete));
    assert_eq!(
        parse_editor_request(&words(&["s", "c", "true", "false", "/a", "v1"])).err(),
        Some(RequestParseError::BadNumber { index: 5 })
    );
    let no_end = words(&["s", "c", "true", "false", "/a", "1", "f", "l", "", "", "", "x=1"]);
    assert_eq!(parse_editor_request(&no_end).err(), Some(RequestParseError::Incomplete));
    let no_method = words(&["s", "c", "true", "false", "/a", "1", "f", "l", "", "", "", "map-end"]);
    assert_eq!(parse_editor_request(&no_method).err(), Some(RequestParseError::Incomplete));
}
