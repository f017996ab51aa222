use kak_lsp::language_features::highlight::{document_highlights_convertible, editor_document_highlight, DocumentHighlight};
use kak_lsp::types::{KakounePosition, OffsetEncoding, Position, Range};

fn highlight(c1: u32, c2: u32, write: bool) -> DocumentHighlight {
    DocumentHighlight {
        range: Range { start: Position { line: 0, character: c1 }, end: Position { line: 0, character: c2 } },
        write,
    }
}

#[test]
fn document_highlight_selects_references() {
    let text = ropey::Rope::from_str("let x = x + 1;\n");
    let hs = vec![highlight(4, 5, true), highlight(8, 9, false)];
    assert!(document_highlights_convertible(&hs, &text, OffsetEncoding::Utf8));
    let option = "set-option window lsp_references 4 1.5,1.5|ReferenceBind 1.9,1.9|Reference";
    let cursor = KakounePosition { line: 1, column: 9 };
    assert_eq!(editor_document_highlight(4, true, &hs, cursor, &text, OffsetEncoding::Utf8), option);
    assert_eq!(
        editor_document_highlight(4, false, &hs, cursor, &text, OffsetEncoding::Utf8),
        format!("evaluate-commands 'select 1.9,1.9 1.5,1.5 1.9,1.9\n{}'", option)
    );
    let outside = KakounePosition { line: 1, column: 1 };
    assert_eq!(editor_document_highlight(4, false, &hs, outside, &text, OffsetEncoding::Utf8), option);
    assert_eq!(
        editor_document_highlight(5, false, &vec![], cursor, &text, OffsetEncoding::Utf8),
        "set-option window lsp_references 5 "
    );
}
