use kak_lsp::language_features::selection_range::{editor_selection_range, selection_range_cursors};
use kak_lsp::types::{KakounePosition, KakouneRange, OffsetEncoding, Position, Range};

fn range(l1: u32, c1: u32, l2: u32, c2: u32) -> Range {
    Range { start: Position { line: l1, character: c1 }, end: Position { line: l2, character: c2 } }
}

fn kak(l1: u32, c1: u32, l2: u32, c2: u32) -> KakouneRange {
    KakouneRange { start: KakounePosition { line: l1, column: c1 }, end: KakounePosition { line: l2, column: c2 } }
}

fn chains() -> Vec<Vec<Range>> {
    vec![vec![range(1, 12, 1, 15), range(1, 12, 1, 18), range(1, 4, 1, 19)], vec![range(0, 3, 0, 7)]]
}

#[test]
fn selection_ranges_by_depth() {
    let text = ropey::Rope::from_str("fn main() {\n    let x = foo(1);\n}\n");
    let selections = vec![kak(2, 13, 2, 13), kak(1, 4, 1, 4)];
    let command = editor_selection_range("client0", &chains(), &selections, false, &text, OffsetEncoding::Utf8);
    assert_eq!(
        command,
        "evaluate-commands -client client0 %[\n    set-option window lsp_selection_ranges '2.15,2.13 1.7,1.4' '2.18,2.13' '2.19,2.5'\n    lsp-selection-range-show\n    lsp-selection-range-select 1\n]"
    );
    let command = editor_selection_range("client0", &chains(), &selections, true, &text, OffsetEncoding::Utf8);
    assert_eq!(
        command,
        "evaluate-commands -client client0 %[\n    set-option window lsp_selection_ranges '2.13,2.15 1.4,1.7' '2.13,2.18' '2.5,2.19'\n    lsp-selection-range-show\n    lsp-selection-range-select 1\n]"
    );
}

#[test]
fn selection_range_starts_beyond_the_selection() {
    let text = ropey::Rope::from_str("fn main() {\n    let x = foo(1);\n}\n");
    let selections = vec![kak(2, 13, 2, 18)];
    let command = editor_selection_range("c", &chains()[..1].to_vec(), &selections, false, &text, OffsetEncoding::Utf8);
    assert!(command.ends_with("lsp-selection-range-select 3\n]"));
    let selections = vec![kak(2, 13, 2, 15)];
    let command = editor_selection_range("c", &chains()[..1].to_vec(), &selections, false, &text, OffsetEncoding::Utf8);
    assert!(command.ends_with("lsp-selection-range-select 2\n]"));
}

#[test]
fn selection_range_cursor_side() {
    let selections = vec![kak(2, 13, 2, 15), kak(1, 4, 1, 7)];
    let (left, cursors) = selection_range_cursors(KakounePosition { line: 2, column: 13 }, &selections);
    assert!(left);
    assert_eq!(cursors, vec![KakounePosition { line: 2, column: 13 }, KakounePosition { line: 1, column: 4 }]);
    let (left, cursors) = selection_range_cursors(KakounePosition { line: 2, column: 15 }, &selections);
    assert!(!left);
    assert_eq!(cursors, vec![KakounePosition { line: 2, column: 15 }, KakounePosition { line: 1, column: 7 }]);
}
