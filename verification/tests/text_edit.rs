use kak_lsp::text_edit::{
    apply_edits_convertible, apply_text_edits_to_buffer, apply_text_edits_to_rope, edits_command_convertible, lsp_text_edits_to_kakoune, minimal_edit_sequence, DiffOp,
};
use kak_lsp::types::{ClientId, OffsetEncoding, Position, Range, TextEdit};
use ropey::Rope;

fn edit(start_line: u32, start_character: u32, end_line: u32, end_character: u32, new_text: &str) -> TextEdit {
    TextEdit {
        range: Range {
            start: Position { line: start_line, character: start_character },
            end: Position { line: end_line, character: end_character },
        },
        new_text: new_text.to_string(),
    }
}

struct Recorder {
    ops: Vec<DiffOp>,
}

impl diffs::Diff for Recorder {
    type Error = ();
    fn delete(&mut self, old: usize, len: usize, _new: usize) -> Result<(), ()> {
        self.ops.push(DiffOp::Delete { old, len });
        Ok(())
    }
    fn insert(&mut self, old: usize, new: usize, new_len: usize) -> Result<(), ()> {
        self.ops.push(DiffOp::Insert { old, new, new_len });
        Ok(())
    }
    fn replace(&mut self, old: usize, old_len: usize, new: usize, new_len: usize) -> Result<(), ()> {
        self.ops.push(DiffOp::Replace { old, old_len, new, new_len });
        Ok(())
    }
}

fn line_diff(old: &Rope, new: &Rope) -> Vec<DiffOp> {
    let oldv = old.lines().collect::<Vec<_>>();
    let newv = new.lines().collect::<Vec<_>>();
    let mut recorder = Recorder { ops: vec![] };
    let _ = diffs::patience::diff(&mut recorder, &oldv, 0, oldv.len(), &newv, 0, newv.len());
    recorder.ops
}

#[test]
pub fn apply_text_edits_to_rope_unicode() {
    let text_edits = vec![
        edit(0, 29, 0, 37, "ToEditorSender"),
        edit(2, 36, 2, 44, "ToEditorSender"),
    ];
    let text = Rope::from_str(
        "use crate::editor_transport::ToEditor;\n// §§§§\nfn completion_menu_text(to_editor: &ToEditor, x: &CompletionItem) -> String",
    );
    let updated_text = apply_text_edits_to_rope(&text, &text_edits, OffsetEncoding::Utf8).unwrap();
    let updated_text = String::from_utf8_lossy(&updated_text);
    assert_eq!(
        updated_text,
        "use crate::editor_transport::ToEditorSender;\n// §§§§\nfn completion_menu_text(to_editor: &ToEditorSender, x: &CompletionItem) -> String"
    );
}

#[test]
pub fn lsp_text_edits_to_kakoune_issue_521() {
    let text_edits = vec![
        edit(0, 4, 0, 7, "std"),
        edit(0, 7, 0, 9, ""),
        edit(0, 9, 0, 12, ""),
        edit(0, 14, 0, 21, "ffi"),
        edit(0, 21, 0, 21, "::"),
        edit(0, 21, 0, 21, "{CStr, CString}"),
    ];
    let buffer = Rope::from_str("use std::ffi::CString;");
    let result = lsp_text_edits_to_kakoune(&None, text_edits, &buffer, OffsetEncoding::Utf8, &line_diff);
    let expected = "select 1.12,1.5 1.21,1.15\nexecute-keys -save-regs \"\" Z\nexecute-keys \"z<space><esc>,<esc>cstd<esc>z1)<space><esc>,<esc>cffi::{CStr, CString}<esc>\"".to_string();
    assert_eq!(result, Some(expected));
}

#[test]
pub fn lsp_text_edits_to_kakoune_insert_adjacent_to_replace() {
    let text_edits = vec![edit(0, 1, 0, 1, "inserted"), edit(0, 2, 0, 3, "replaced")];
    let buffer = Rope::from_str("0123");
    let result = lsp_text_edits_to_kakoune(&None, text_edits, &buffer, OffsetEncoding::Utf8, &line_diff);
    let expected = "select 1.2,1.2 1.3,1.3\nexecute-keys -save-regs \"\" Z\nexecute-keys \"z<space><esc>,<esc>iinserted<esc>z1)<space><esc>,<esc>creplaced<esc>\"".to_string();
    assert_eq!(result, Some(expected));
}

#[test]
pub fn lsp_text_edits_to_kakoune_issue_527() {
    let text_edits = vec![
        edit(0, 4, 0, 9, "if"),
        edit(0, 10, 0, 13, "let"),
        edit(0, 13, 0, 13, " "),
        edit(0, 13, 0, 13, "Test::Foo"),
        edit(0, 13, 0, 13, " "),
        edit(0, 13, 0, 13, "="),
        edit(0, 13, 0, 13, " "),
        edit(0, 13, 0, 13, "foo"),
        edit(1, 8, 1, 12, "println"),
        edit(1, 12, 1, 14, ""),
    ];
    let buffer = Rope::from_str(
        "    match foo {\n        Test::Foo => println!(\"foo\"),\n        _ => {}\n    }",
    );
    let result = lsp_text_edits_to_kakoune(&None, text_edits, &buffer, OffsetEncoding::Utf8, &line_diff);
    let expected = "select 1.9,1.5 1.13,1.11 2.14,2.9\nexecute-keys -save-regs \"\" Z\nexecute-keys \"z<space><esc>,<esc>cif<esc>z1)<space><esc>,<esc>clet Test::Foo = foo<esc>z2)<space><esc>,<esc>cprintln<esc>\"".to_string();
    assert_eq!(result, Some(expected));
}

#[test]
pub fn lsp_text_edits_to_kakoune_merge_imports() {
    let text_edits = vec![
        edit(0, 4, 0, 7, "std"),
        edit(0, 7, 0, 9, ""),
        edit(0, 9, 0, 13, ""),
        edit(0, 13, 0, 15, ""),
        edit(0, 15, 0, 19, ""),
        edit(0, 19, 0, 19, "::"),
        edit(0, 19, 0, 19, "{path::Path, process::Stdio}"),
        edit(1, 0, 1, 24, "\n"),
        edit(1, 24, 1, 24, "fn main() {\n    let matches = App::new(\"kak-lsp\").get_matches();\n\n    if matches.is_present(\"kakoune\") {}\n}"),
        edit(3, 3, 3, 7, "kakoune"),
        edit(4, 8, 4, 15, "script"),
        edit(4, 15, 4, 15, ":"),
        edit(4, 16, 4, 16, "&str"),
        edit(4, 16, 4, 16, " "),
        edit(4, 18, 4, 21, "include_str"),
        edit(4, 21, 4, 23, ""),
        edit(4, 23, 4, 26, ""),
        edit(4, 26, 4, 37, ""),
        edit(4, 37, 4, 38, "!"),
        edit(4, 38, 4, 49, "("),
        edit(4, 49, 4, 49, "\"../rc/lsp.kak\""),
        edit(4, 49, 4, 49, ")"),
        edit(4, 49, 4, 51, ""),
        edit(4, 52, 6, 4, "\n    "),
        edit(6, 4, 6, 6, "let"),
        edit(6, 7, 6, 14, "args"),
        edit(6, 14, 6, 15, ""),
        edit(6, 15, 6, 25, ""),
        edit(6, 25, 6, 36, ""),
        edit(6, 37, 6, 39, "="),
        edit(6, 39, 6, 39, " "),
        edit(6, 39, 6, 39, "env::args().skip(1)"),
        edit(6, 39, 6, 39, ";"),
        edit(7, 1, 9, 0, "\n"),
        edit(9, 0, 12, 1, ""),
        edit(12, 1, 13, 0, ""),
    ];
    let buffer = Rope::from_str("use std::path::Path;\nuse std::process::Stdio;\n\nfn main() {\n    let matches = App::new(\"kak-lsp\").get_matches();\n\n    if matches.is_present(\"kakoune\") {}\n}\n\nfn kakoune() {\n    let script: &str = include_str!(\"../rc/lsp.kak\");\n    let args = env::args().skip(1);\n}\n");
    let result = lsp_text_edits_to_kakoune(&None, text_edits, &buffer, OffsetEncoding::Utf8, &line_diff);
    let expected = "select 1.19,1.5 2.24,2.1 4.7,4.4 5.15,5.9 5.17,5.17 5.51,5.19 7.6,5.53 7.36,7.8 7.39,7.38 13.1000000,8.2\nexecute-keys -save-regs \"\" Z\nexecute-keys \"z<space><esc>,<esc>cstd::{path::Path, process::Stdio}<esc>z1)<space><esc>,<esc>c\nfn main() {\n    let matches = App::new(\"\"kak-lsp\"\").get_matches();\n\n    if matches.is_present(\"\"kakoune\"\") {}\n}<esc>z2)<space><esc>,<esc>ckakoune<esc>z3)<space><esc>,<esc>cscript:<esc>z4)<space><esc>,<esc>i&str <esc>z5)<space><esc>,<esc>cinclude_str!(\"\"../rc/lsp.kak\"\")<esc>z6)<space><esc>,<esc>c\n    let<esc>z7)<space><esc>,<esc>cargs<esc>z8)<space><esc>,<esc>c= env::args().skip(1);<esc>z9)<space><esc>,<esc>c\n<esc>\""
    .to_string();
    assert_eq!(result, Some(expected));
}

#[test]
pub fn lsp_text_edits_to_kakoune_rewrite_whole_buffer_missing_eol() {
    let buffer = Rope::from_str("<head/>\n    <body>\n    asdf\n</body>\n");
    let text_edits = vec![edit(0, 0, 4, 0, "<head/>\n\n<body>\n        asdf\n</body>")];
    let result = lsp_text_edits_to_kakoune(
        &Some(ClientId("test_client".to_string())),
        text_edits,
        &buffer,
        OffsetEncoding::Utf8,
        &line_diff,
    );
    let expected = "select 3.1000000,2.1\nexecute-keys -save-regs \"\" Z\nexecute-keys \"z<space><esc>,<esc>c\n<lt>body>\n        asdf\n<esc>\"".to_string();
    assert_eq!(result, Some(expected));
}

#[test]
pub fn lsp_text_edits_to_kakoune_rewrite_whole_buffer_text_edit_missing_eol() {
    let buffer = Rope::from_str("<body>\n                asdf\n\n        asdf\n        asdf\n        asdf\n        asdf\n        sadf\n</body>\n");
    let text_edits = vec![edit(
        0,
        0,
        9,
        0,
        "<body>\n        asdf\n\n        asdf\n        asdf\n        asdf\n        asdf\n        sadf\n</body>",
    )];
    let result = lsp_text_edits_to_kakoune(
        &Some(ClientId("test_client".to_string())),
        text_edits,
        &buffer,
        OffsetEncoding::Utf8,
        &line_diff,
    );
    let expected = "select 2.1000000,2.1\nexecute-keys -save-regs \"\" Z\nexecute-keys \"z<space><esc>,<esc>c        asdf\n<esc>\"".to_string();
    assert_eq!(result, Some(expected));
}

#[test]
fn edits_are_checked_before_they_are_applied() {
    let text = Rope::from_str("h\u{e9}llo\nworld\n");
    let ok = vec![edit(0, 0, 0, 1, "H"), edit(1, 0, 1, 5, "there")];
    assert!(apply_edits_convertible(&text, &ok, OffsetEncoding::Utf8));
    assert!(edits_command_convertible(&ok, &text, OffsetEncoding::Utf8));
    let overlapping = vec![edit(0, 0, 0, 4, "a"), edit(0, 2, 0, 3, "b")];
    assert!(!apply_edits_convertible(&text, &overlapping, OffsetEncoding::Utf8));
    // Byte 2 lies inside the two bytes of "é".
    let split = vec![edit(0, 2, 0, 3, "e")];
    assert!(!apply_edits_convertible(&text, &split, OffsetEncoding::Utf8));
    assert!(apply_edits_convertible(&text, &split, OffsetEncoding::Utf16));
    // An edit past the end fails when applied, so it needs no check.
    let past = vec![edit(9, 0, 9, 1, "x")];
    assert!(apply_edits_convertible(&text, &past, OffsetEncoding::Utf8));
    let backwards = vec![edit(0, 3, 0, 1, "x")];
    assert!(!edits_command_convertible(&backwards, &text, OffsetEncoding::Utf8));
}

#[test]
fn diff_edits_turn_old_text_into_new() {
    let old = Rope::from_str("alpha\nbeta\ngamma\ndelta\n");
    let new = Rope::from_str("alpha\nBETA\ngamma\nepsilon\ndelta\n");
    let ops = line_diff(&old, &new);
    let edits = minimal_edit_sequence(&ops, &new);
    for e in &edits {
        assert_eq!(e.range.start.character, 0);
        assert_eq!(e.range.end.character, 0);
    }
    assert!(apply_edits_convertible(&old, &edits, OffsetEncoding::Utf8));
    let out = apply_text_edits_to_rope(&old, &edits, OffsetEncoding::Utf8).unwrap();
    assert_eq!(String::from_utf8(out).unwrap(), "alpha\nBETA\ngamma\nepsilon\ndelta\n");
}

#[test]
fn edits_are_applied_in_the_buffer_the_uri_names() {
    let text = Rope::from_str("abc\n");
    let uri = lsp_types::Url::from_file_path("/tmp/some file.rs").unwrap();
    let command = apply_text_edits_to_buffer(
        &None,
        Some(uri),
        vec![edit(0, 0, 0, 1, "x")],
        &text,
        OffsetEncoding::Utf8,
        false,
        &line_diff,
    )
    .unwrap();
    assert!(command.starts_with("evaluate-commands -buffer '/tmp/some file.rs' -save-regs ^ "), "{}", command);
    let command = apply_text_edits_to_buffer(&None, None, vec![edit(0, 0, 0, 1, "x")], &text, OffsetEncoding::Utf8, false, &line_diff)
        .unwrap();
    assert!(command.starts_with("evaluate-commands -draft -save-regs ^ "), "{}", command);
    assert_eq!(
        apply_text_edits_to_buffer(&None, None, vec![], &text, OffsetEncoding::Utf8, false, &line_diff),
        None
    );
}
