use kak_lsp::util::{
    editor_escape, editor_escape_double_quotes, editor_escape_keys, editor_quote, editor_quote_double_quotes,
    escape_keys, escape_tuple_element, filetype_to_language_id_map, short_file_path,
};

#[test]
fn editor_escape_doubles_single_quotes() {
    assert_eq!(editor_escape("it's"), "it''s");
    assert_eq!(editor_escape("''"), "''''");
    assert_eq!(editor_escape("plain"), "plain");
}

#[test]
fn editor_escape_double_quotes_doubles_quotes_and_percents() {
    assert_eq!(editor_escape_double_quotes("say \"hi\" 100%"), "say \"\"hi\"\" 100%%");
}

#[test]
fn escape_keys_writes_less_than_as_key() {
    assert_eq!(escape_keys("a<b"), "a<lt>b");
    assert_eq!(editor_escape_keys("<<"), "<lt><lt>");
}

#[test]
fn escape_tuple_element_escapes_bars_and_backslashes() {
    assert_eq!(escape_tuple_element("a|b\\c"), "a\\|b\\\\c");
    assert_eq!(escape_tuple_element("|"), "\\|");
}

#[test]
fn editor_quote_leaves_words_bare() {
    assert_eq!(editor_quote("word_with-dash1"), "word_with-dash1");
    assert_eq!(editor_quote("héllo"), "héllo");
    assert_eq!(editor_quote("two words"), "'two words'");
    assert_eq!(editor_quote("it's"), "'it''s'");
    assert_eq!(editor_quote(""), "''");
}

#[test]
fn editor_quote_reads_back() {
    let quoted = editor_quote("a 'b' c");
    assert_eq!(quoted, "'a ''b'' c'");
    let inner = &quoted[1..quoted.len() - 1];
    assert_eq!(inner.replace("''", "'"), "a 'b' c");
}

#[test]
fn editor_quote_double_quotes_wraps_and_escapes() {
    assert_eq!(editor_quote_double_quotes("a\"b%"), "\"a\"\"b%%\"");
}

#[test]
fn short_file_path_strips_the_directory() {
    assert_eq!(short_file_path("/home/me/project/src/main.rs", "/home/me/project"), "src/main.rs");
    assert_eq!(short_file_path("/elsewhere/main.rs", "/home/me/project"), "/elsewhere/main.rs");
    assert_eq!(short_file_path("/home/me/projectile/x.rs", "/home/me/project"), "/home/me/projectile/x.rs");
}

#[test]
fn escaped_quotes_come_in_even_runs() {
    let e = editor_escape("it's ''");
    assert_eq!(e, "it''s ''''");
    assert_eq!(e.replace("''", "'"), "it's ''");
    assert_eq!(e.matches('\'').count(), 2 * "it's ''".matches('\'').count());
    assert_eq!(escape_keys("<c-a><"), "<lt>c-a><lt>");
    assert_eq!(escape_keys("<c-a><").replace("<lt>", "<"), "<c-a><");
    assert_eq!(editor_quote("it's"), "'it''s'");
    assert_eq!(editor_quote("word_1-x"), "word_1-x");
}

#[test]
fn filetypes_map_to_language_ids_and_servers() {
    let servers = vec![
        ("rust-analyzer".to_string(), vec!["rust".to_string()]),
        ("clangd".to_string(), vec!["c".to_string(), "cpp".to_string()]),
        ("ccls".to_string(), vec!["c".to_string()]),
    ];
    let ids = vec![("cpp".to_string(), "c++".to_string())];
    let map = filetype_to_language_id_map(&servers, &ids, false);
    assert_eq!(
        map,
        vec![
            ("rust".to_string(), "rust".to_string(), vec!["rust-analyzer".to_string()]),
            ("c".to_string(), "c".to_string(), vec!["clangd".to_string(), "ccls".to_string()]),
            ("cpp".to_string(), "c++".to_string(), vec!["clangd".to_string()]),
        ]
    );
    let legacy = vec![("c:clangd".to_string(), vec!["c".to_string()])];
    assert_eq!(
        filetype_to_language_id_map(&legacy, &vec![], true),
        vec![("c".to_string(), "c".to_string(), vec!["clangd".to_string()])]
    );
}
