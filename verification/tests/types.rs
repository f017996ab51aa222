use kak_lsp::language_features::omnisharp::{Point, Range as OmniRange};
use kak_lsp::types::{KakounePosition, KakouneRange, OffsetEncoding, ResponseFifo};

#[test]
fn kakoune_range_prints_end_first() {
    let r = KakouneRange { start: KakounePosition { line: 1, column: 2 }, end: KakounePosition { line: 3, column: 4 } };
    assert_eq!(r.to_string(), "3.4,1.2");
    assert_eq!(r.start.to_string(), "1.2");
}

#[test]
fn offset_encoding_defaults_to_utf16() {
    assert_eq!(OffsetEncoding::default(), OffsetEncoding::Utf16);
}

#[test]
fn response_fifo_is_taken_once() {
    let mut fifo = ResponseFifo::new("/tmp/fifo".to_string());
    assert_eq!(fifo.take(), Some("/tmp/fifo".to_string()));
    assert_eq!(fifo.take(), None);
}

#[test]
fn omnisharp_points_are_zero_based_positions() {
    let p = Point { line: 4, column: 9 };
    let pos = p.to_position();
    assert_eq!((pos.line, pos.character), (4, 9));
    let r = OmniRange { start: Point { line: 1, column: 2 }, end: Point { line: 3, column: 4 } };
    let lr = r.to_range();
    assert_eq!((lr.start.line, lr.start.character, lr.end.line, lr.end.character), (1, 2, 3, 4));
}
