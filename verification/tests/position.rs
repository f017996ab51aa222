use kak_lsp::position::{
    kakoune_position_to_lsp, lsp_character_to_byte_offset, lsp_position_to_kakoune, lsp_range_to_kakoune,
    lsp_range_to_kakoune_utf_8_code_units, EOL_OFFSET,
};
use kak_lsp::types::{KakounePosition, KakouneRange, OffsetEncoding, Position, Range};

fn range(start_line: u32, start_character: u32, end_line: u32, end_character: u32) -> Range {
    Range {
        start: Position { line: start_line, character: start_character },
        end: Position { line: end_line, character: end_character },
    }
}

#[test]
fn lsp_range_to_kakoune_utf_8_code_units_bol_insert() {
    assert_eq!(
        lsp_range_to_kakoune_utf_8_code_units(&range(10, 0, 10, 0)),
        KakouneRange {
            start: KakounePosition { line: 11, column: 1 },
            end: KakounePosition { line: 11, column: 1 }
        }
    );
}

#[test]
fn lsp_range_to_kakoune_utf_8_code_units_bof_insert() {
    assert_eq!(
        lsp_range_to_kakoune_utf_8_code_units(&range(0, 0, 0, 0)),
        KakouneRange {
            start: KakounePosition { line: 1, column: 1 },
            end: KakounePosition { line: 1, column: 1 }
        }
    );
}

#[test]
fn lsp_range_to_kakoune_utf_8_code_units_eol() {
    assert_eq!(
        lsp_range_to_kakoune_utf_8_code_units(&range(10, 0, 11, 0)),
        KakouneRange {
            start: KakounePosition { line: 11, column: 1 },
            end: KakounePosition { line: 11, column: EOL_OFFSET }
        }
    );
}

#[test]
fn utf16_offsets_count_code_units() {
    let text = ropey::Rope::from_str("\u{1F600}a\n");
    let r = range(0, 2, 0, 3);
    assert_eq!(
        lsp_range_to_kakoune(&r, &text, OffsetEncoding::Utf16),
        KakouneRange { start: KakounePosition { line: 1, column: 5 }, end: KakounePosition { line: 1, column: 5 } }
    );
    assert_eq!(
        lsp_position_to_kakoune(&Position { line: 0, character: 2 }, &text, OffsetEncoding::Utf16),
        KakounePosition { line: 1, column: 5 }
    );
    // The second unit of the emoji belongs to the emoji.
    assert_eq!(
        lsp_position_to_kakoune(&Position { line: 0, character: 1 }, &text, OffsetEncoding::Utf16),
        KakounePosition { line: 1, column: 1 }
    );
    assert_eq!(
        kakoune_position_to_lsp(&KakounePosition { line: 1, column: 5 }, &text, OffsetEncoding::Utf16),
        Position { line: 0, character: 2 }
    );
    assert_eq!(
        kakoune_position_to_lsp(&KakounePosition { line: 1, column: 3 }, &text, OffsetEncoding::Utf16),
        Position { line: 0, character: 0 }
    );
    let line = text.line(0);
    assert_eq!(lsp_character_to_byte_offset(&line, 3, OffsetEncoding::Utf16), Some(5));
    assert_eq!(lsp_character_to_byte_offset(&line, 5, OffsetEncoding::Utf16), None);
    assert_eq!(lsp_character_to_byte_offset(&line, 5, OffsetEncoding::Utf8), Some(5));
}

#[test]
fn utf16_kakoune_positions_round_trip() {
    let text = ropey::Rope::from_str("\u{1F600}a\u{e9}b\n");
    for column in [1u32, 5, 6, 8] {
        let p = KakounePosition { line: 1, column };
        let lsp = kakoune_position_to_lsp(&p, &text, OffsetEncoding::Utf16);
        assert_eq!(lsp_position_to_kakoune(&lsp, &text, OffsetEncoding::Utf16), p);
    }
}
