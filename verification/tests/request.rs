use kak_lsp::request::{count_newlines, split_buffer_lines, Feed, TokenReader};

fn token(feed: Feed) -> (Vec<u8>, usize) {
    match feed {
        Feed::Token { token, next_offset } => (token, next_offset),
        Feed::NeedInput => panic!("needs input"),
        Feed::Unexpected { offset, byte } => panic!("unexpected {} at {}", byte, offset),
    }
}

#[test]
fn reads_quoted_words() {
    let input = b"'hello' 'it'\\''s' ".to_vec();
    let mut reader = TokenReader::new();
    let (first, next) = token(reader.feed(&input, 0));
    assert_eq!(first, b"hello".to_vec());
    assert_eq!(next, 8);
    let (second, next) = token(reader.feed(&input, next));
    assert_eq!(second, b"it's".to_vec());
    assert_eq!(next, input.len());
}

#[test]
fn reads_backslashed_bytes() {
    let input = b"\\a\\  ".to_vec();
    let mut reader = TokenReader::new();
    assert_eq!(token(reader.feed(&input, 0)), (b"a ".to_vec(), 5));
}

#[test]
fn reads_empty_word() {
    let input = b"'' ".to_vec();
    let mut reader = TokenReader::new();
    assert_eq!(token(reader.feed(&input, 0)), (vec![], 3));
}

#[test]
fn reads_word_in_pieces() {
    let mut reader = TokenReader::new();
    assert!(matches!(reader.feed(&b"'hel".to_vec(), 0), Feed::NeedInput));
    assert!(matches!(reader.feed(&b"lo'\\".to_vec(), 0), Feed::NeedInput));
    assert_eq!(token(reader.feed(&b"' x".to_vec(), 0)), (b"hello'".to_vec(), 2));
}

#[test]
fn rejects_bare_bytes() {
    let mut reader = TokenReader::new();
    match reader.feed(&b"'ok' abc".to_vec(), 5) {
        Feed::Unexpected { offset, byte } => {
            assert_eq!(offset, 5);
            assert_eq!(byte, b'a');
        }
        _ => panic!("expected an unexpected byte"),
    }
    assert_eq!(token(reader.feed(&b"'fresh' ".to_vec(), 0)), (b"fresh".to_vec(), 8));
}

#[test]
fn counts_and_splits_lines() {
    let buffer = b"one\ntwo\nthree\nrest".to_vec();
    assert_eq!(count_newlines(&buffer), 3);
    let (head, tail) = split_buffer_lines(&buffer, 2);
    assert_eq!(head, b"one\ntwo\n".to_vec());
    assert_eq!(tail, b"three\nrest".to_vec());
    let (head, tail) = split_buffer_lines(&buffer, 3);
    assert_eq!(head, b"one\ntwo\nthree\n".to_vec());
    assert_eq!(tail, b"rest".to_vec());
}
