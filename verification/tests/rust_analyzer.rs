use kak_lsp::language_features::rust_analyzer::{editor_expand_macro, run_single, source_change_jump};
use kak_lsp::types::{OffsetEncoding, Position};

#[test]
fn macro_expansion_info() {
    assert_eq!(editor_expand_macro("vec", "let v = 'a';"), "info 'expansion of vec!\n\nlet v = ''a'';'");
}

#[test]
fn run_single_with_cargo() {
    let strings = |v: &[&str]| v.iter().map(|s| s.to_string()).collect::<Vec<_>>();
    assert_eq!(
        run_single(
            "cargo",
            &strings(&["test", "--package", "foo"]),
            &vec![],
            &strings(&["tests::it works", "--exact"]),
            "client0"
        ),
        Some(
            "set-register : 'cargo test --package foo -- ''tests::it works'' --exact'; execute-keys -client client0 :<c-p>"
                .to_string()
        )
    );
    assert_eq!(run_single("shell", &vec![], &vec![], &vec![], "client0"), None);
}

#[test]
fn source_change_moves_cursor() {
    let text = ropey::Rope::from_str("fn main() {\n    let x = 1;\n}\n");
    let at = Position { line: 1, character: 4 };
    let expected = "evaluate-commands -client client0 -verbatim -- evaluate-commands -try-client %opt{jumpclient} -verbatim -- edit -existing '/tmp/a.rs' 2 4";
    assert_eq!(source_change_jump("client0", "/tmp/a.rs", at, Some(&text), OffsetEncoding::Utf8), expected);
    assert_eq!(source_change_jump("client0", "/tmp/a.rs", at, None, OffsetEncoding::Utf16), expected);
}
