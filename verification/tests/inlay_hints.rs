use kak_lsp::language_features::inlay_hints::{
    inlay_hint_edits, inlay_hints_response, inlay_hints_showable, nearest_hint, InlayHint,
};
use kak_lsp::types::{KakounePosition, OffsetEncoding, Position, Range, TextEdit};

fn at(line: u32, character: u32) -> Position {
    Position { line, character }
}

fn insert(line: u32, character: u32, text: &str) -> TextEdit {
    TextEdit { range: Range { start: at(line, character), end: at(line, character) }, new_text: text.to_string() }
}

fn hints() -> Vec<InlayHint> {
    vec![
        InlayHint {
            position: at(0, 5),
            label: vec!["i32".to_string()],
            padding_left: true,
            padding_right: false,
            text_edits: vec![insert(0, 5, ": i32")],
        },
        InlayHint {
            position: at(0, 12),
            label: vec!["x".to_string(), ": ".to_string()],
            padding_left: false,
            padding_right: true,
            text_edits: vec![],
        },
        InlayHint {
            position: at(0, 15),
            label: vec!["{y}|".to_string()],
            padding_left: false,
            padding_right: false,
            text_edits: vec![insert(0, 15, "y: ")],
        },
    ]
}

#[test]
fn inlay_hints_shown() {
    let text = ropey::Rope::from_str("let x = foo(a, b);\n");
    let encs = vec![OffsetEncoding::Utf8; 3];
    assert!(inlay_hints_showable(&hints(), &encs, &text));
    let command = inlay_hints_response("main.rs", 3, &hints(), &encs, &text);
    assert_eq!(
        command,
        "evaluate-commands -buffer 'main.rs' -verbatim -- set-option buffer lsp_inlay_hints 3 '1.6+0| {InlayHint}i32' '1.13+0|{InlayHint}x: {Default} ' '1.16+0|{InlayHint}\\\\{y}\\|'"
    );
    let none = inlay_hints_response("main.rs", 4, &vec![], &vec![], &text);
    assert_eq!(none, "evaluate-commands -buffer 'main.rs' -verbatim -- set-option buffer lsp_inlay_hints 4 ");
}

#[test]
fn inlay_hints_not_showable() {
    let text = ropey::Rope::from_str("x\n");
    let mut far = hints();
    far[0].position = at(u32::MAX, 0);
    assert!(!inlay_hints_showable(&far, &vec![OffsetEncoding::Utf16; 3], &text));
    assert!(!inlay_hints_showable(&hints(), &vec![OffsetEncoding::Utf16; 2], &text));
}

fn kak(line: u32, column: u32) -> KakounePosition {
    KakounePosition { line, column }
}

#[test]
fn nearest_hint_on_the_cursor_line() {
    let positions = vec![kak(1, 6), kak(1, 13), kak(1, 16), kak(2, 1)];
    assert_eq!(nearest_hint(&positions, kak(1, 14)), Some(1));
    assert_eq!(nearest_hint(&positions, kak(1, 1)), Some(0));
    assert_eq!(nearest_hint(&positions, kak(2, 40)), Some(3));
    assert_eq!(nearest_hint(&positions, kak(3, 1)), None);
    assert_eq!(nearest_hint(&vec![kak(1, 6), kak(1, 16)], kak(1, 11)), Some(0));
}

fn plain(groups: Vec<(usize, Vec<TextEdit>)>) -> Vec<(usize, Vec<(Range, String)>)> {
    groups.into_iter().map(|(s, edits)| (s, edits.into_iter().map(|e| (e.range, e.new_text)).collect())).collect()
}

fn edit(line: u32, character: u32, text: &str) -> (Range, String) {
    let e = insert(line, character, text);
    (e.range, e.new_text)
}

#[test]
fn inlay_hint_edits_by_server() {
    let groups = plain(inlay_hint_edits(&hints(), &vec![1, 1, 2], &vec![2, 0, 1]));
    assert_eq!(groups, vec![(2, vec![edit(0, 15, "y: ")]), (1, vec![edit(0, 5, ": i32")])]);
    assert!(inlay_hint_edits(&hints(), &vec![1, 1, 2], &vec![1]).is_empty());
    let groups = plain(inlay_hint_edits(&hints(), &vec![1, 1, 1], &vec![0, 2]));
    assert_eq!(groups, vec![(1, vec![edit(0, 5, ": i32"), edit(0, 15, "y: ")])]);
}
