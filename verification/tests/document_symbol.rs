use kak_lsp::language_features::document_symbol::find_identifier_in_file;
use kak_lsp::language_features::document_symbol::unadorned_name;
use kak_lsp::language_features::document_symbol::{
    format_symbol, symbol_kind_from_string, symbol_kind_prefix, SymbolEntry, SymbolKind,
};
use kak_lsp::types::{KakounePosition, Position};

fn entry(name: &str, kind: i32, file: &str, line: u32, column: u32, children: Vec<SymbolEntry>) -> SymbolEntry {
    SymbolEntry {
        name: name.to_string(),
        kind: SymbolKind(kind),
        file: file.to_string(),
        position: KakounePosition { line, column },
        children,
    }
}

fn sample() -> Vec<SymbolEntry> {
    vec![
        entry("foo", 12, "a.rs", 1, 1, vec![entry("bar\nbaz", 13, "a.rs", 2, 5, vec![])]),
        entry("qux", 23, "b.rs", 10, 1, vec![]),
    ]
}

#[test]
fn format_symbol_lists_files_and_tree() {
    let (text, goto) = format_symbol(&sample(), None, None);
    assert_eq!(
        text,
        "a.rs:1:1: foo (Function)\na.rs:2:5: └── bar (Variable)\nb.rs:10:1: qux (Struct)\n"
    );
    assert_eq!(goto, 0);
}

#[test]
fn format_symbol_single_file_aligns_and_finds_cursor() {
    let (text, goto) = format_symbol(&sample(), Some(KakounePosition { line: 2, column: 7 }), None);
    assert_eq!(
        text,
        "%:1:1:  foo (Function)\n%:2:5:  └── bar (Variable)\n%:10:1: qux (Struct)\n"
    );
    assert_eq!(goto, 2);
}

#[test]
fn format_symbol_cursor_before_every_symbol() {
    let (_, goto) = format_symbol(&sample(), Some(KakounePosition { line: 0, column: 9 }), None);
    assert_eq!(goto, 0);
}

#[test]
fn format_symbol_uses_kind_mapping() {
    let mapping = vec![
        ("Function".to_string(), "fn".to_string()),
        ("Struct".to_string(), "".to_string()),
    ];
    let (text, _) = format_symbol(&sample(), None, Some(&mapping));
    assert_eq!(
        text,
        "a.rs:1:1: fn  foo\na.rs:2:5: └── bar (Variable)\nb.rs:10:1:  qux\n"
    );
}

#[test]
fn format_symbol_deeper_tree_marks() {
    let items = vec![entry(
        "a",
        5,
        "f",
        1,
        1,
        vec![
            entry("b", 6, "f", 2, 1, vec![entry("c", 6, "f", 3, 1, vec![])]),
            entry("d", 6, "f", 4, 1, vec![entry("e", 6, "f", 5, 1, vec![])]),
        ],
    )];
    let (text, _) = format_symbol(&items, None, None);
    assert_eq!(
        text,
        "f:1:1: a (Class)\nf:2:1: ├── b (Method)\nf:3:1: │   └── c (Method)\nf:4:1: └── d (Method)\nf:5:1:     └── e (Method)\n"
    );
}

#[test]
fn format_symbol_empty_list() {
    let (text, goto) = format_symbol(&vec![], Some(KakounePosition { line: 1, column: 1 }), None);
    assert_eq!(text, "");
    assert_eq!(goto, 0);
}

#[test]
fn symbol_kind_names_round_trip() {
    assert_eq!(SymbolKind(12).name(), "Function");
    assert_eq!(SymbolKind(26).name(), "TypeParameter");
    assert_eq!(SymbolKind(0).name(), "SymbolKind(0)");
    assert_eq!(SymbolKind(-3).name(), "SymbolKind(-3)");
    assert_eq!(symbol_kind_from_string("Struct"), Some(SymbolKind(23)));
    assert_eq!(symbol_kind_from_string("struct"), None);
}

#[test]
fn symbol_kind_prefix_of_mapping() {
    let mapping = vec![("Method".to_string(), "m".to_string())];
    assert_eq!(symbol_kind_prefix(SymbolKind(6), Some(&mapping)), Some("m ".to_string()));
    assert_eq!(symbol_kind_prefix(SymbolKind(5), Some(&mapping)), None);
    assert_eq!(symbol_kind_prefix(SymbolKind(6), None), None);
}

#[test]
fn unadorned_name_drops_erlang_arity() {
    assert_eq!(unadorned_name("erlang", "foo/3"), "foo");
    assert_eq!(unadorned_name("erlang", "foo"), "foo");
    assert_eq!(unadorned_name("erlang", "a/b/c"), "a");
    assert_eq!(unadorned_name("elixir", "foo/3"), "foo/3");
}

#[test]
fn find_identifier_skips_longer_words() {
    let text = ropey::Rope::from_str("[f.name for f in fields]\nx = foo_bar + foo\n");
    let start = Position { line: 0, character: 8 };
    assert_eq!(
        find_identifier_in_file(&text, start, "f"),
        Some(Position { line: 0, character: 12 })
    );
    let start = Position { line: 1, character: 0 };
    assert_eq!(
        find_identifier_in_file(&text, start, "foo"),
        Some(Position { line: 1, character: 16 })
    );
    assert_eq!(find_identifier_in_file(&text, start, "zzz"), None);
    assert_eq!(find_identifier_in_file(&text, start, ""), Some(start));
    let end = ropey::Rope::from_str("ab foo");
    let origin = Position { line: 0, character: 0 };
    assert_eq!(find_identifier_in_file(&end, origin, "foo"), None);
}
