use kak_lsp::language_features::object::next_or_prev_symbol_details;
use kak_lsp::language_features::document_symbol::SymbolKind;
use kak_lsp::language_features::object::{
    breadcrumbs_command, edit_at_range, editor_object, symbol_menu, symbol_search, ObjectError, SymbolNode,
};
use kak_lsp::types::{KakounePosition, KakouneRange, OffsetEncoding, Position, Range};
use ropey::Rope;

fn range(l1: u32, c1: u32, l2: u32, c2: u32) -> Range {
    Range { start: Position { line: l1, character: c1 }, end: Position { line: l2, character: c2 } }
}

fn pos(line: u32, column: u32) -> KakounePosition {
    KakounePosition { line, column }
}

fn cursor_at(line: u32, column: u32) -> (KakouneRange, KakounePosition) {
    (KakouneRange { start: pos(line, column), end: pos(line, column) }, pos(line, column))
}

fn text() -> Rope {
    Rope::from_str("fn a() {\n}\nfn b() {\n    x\n}\n")
}

fn node(name: &str, kind: i32, range: Range, selection_range: Range, children: Vec<SymbolNode>) -> SymbolNode {
    SymbolNode { name: name.to_string(), kind: SymbolKind(kind), range, selection_range, children }
}

fn symbols() -> Vec<SymbolNode> {
    vec![
        node("a", 12, range(0, 0, 1, 1), range(0, 3, 0, 4), vec![]),
        node(
            "b",
            12,
            range(2, 0, 4, 1),
            range(2, 3, 2, 4),
            vec![node("x\nmore", 13, range(3, 4, 3, 5), range(3, 4, 3, 5), vec![])],
        ),
    ]
}

fn run(kinds: &[&str], mode: &str, count: u32, selections: Vec<(KakouneRange, KakounePosition)>) -> Result<String, ObjectError> {
    let kinds: Vec<String> = kinds.iter().map(|k| k.to_string()).collect();
    editor_object(&symbols(), &kinds, mode, count, &selections, &text(), OffsetEncoding::Utf8)
}

#[test]
fn object_next_end_moves_to_symbol_end() {
    assert_eq!(run(&[], "]", 1, vec![cursor_at(1, 3)]), Ok("select 1.3,2.1".to_string()));
    assert_eq!(run(&[], "]", 2, vec![cursor_at(1, 3)]), Ok("select 3.1,5.1".to_string()));
    assert_eq!(run(&[], "]", 0, vec![cursor_at(1, 3)]), Ok("select 1.3,2.1".to_string()));
}

#[test]
fn object_next_end_wraps_around() {
    assert_eq!(run(&[], "]", 1, vec![cursor_at(5, 3)]), Ok("select 5.3,2.1".to_string()));
}

#[test]
fn object_next_end_on_the_cursor_line() {
    assert_eq!(run(&[], "]", 1, vec![cursor_at(4, 1)]), Ok("select 4.5,4.5".to_string()));
    assert_eq!(
        run(&[], "]", 1, vec![cursor_at(1, 3), cursor_at(4, 1)]),
        Ok("select 1.3,2.1 4.5,4.5".to_string())
    );
}

#[test]
fn object_previous_start_moves_back() {
    assert_eq!(run(&[], "[", 1, vec![cursor_at(4, 3)]), Ok("select 4.3,3.1".to_string()));
}

#[test]
fn object_around_cursor_selects_enclosing_symbol() {
    assert_eq!(run(&[], "<a-i>", 1, vec![cursor_at(4, 5)]), Ok("select 3.1,5.1".to_string()));
    assert_eq!(run(&[], "<a-a>", 5, vec![cursor_at(4, 5)]), Ok("select 3.1,5.1".to_string()));
}

#[test]
fn object_extends_selection() {
    let sel = (KakouneRange { start: pos(4, 3), end: pos(4, 4) }, pos(4, 4));
    assert_eq!(run(&[], "{", 1, vec![sel]), Ok("select 4.4,3.1".to_string()));
    assert_eq!(run(&[], "}", 1, vec![sel]), Ok("select 4.3,4.5".to_string()));
}

#[test]
fn object_errors() {
    assert_eq!(run(&["Variable"], "<a-i>", 1, vec![cursor_at(4, 5)]), Err(ObjectError::NoSelectionsRemaining));
    assert_eq!(run(&["Bogus"], "]", 1, vec![cursor_at(1, 1)]), Err(ObjectError::InvalidSymbolKind("Bogus".to_string())));
    assert_eq!(run(&["Class"], "]", 1, vec![cursor_at(1, 1)]), Err(ObjectError::NoMatchingSymbol));
    assert_eq!(run(&[], "x", 1, vec![cursor_at(1, 1)]), Err(ObjectError::InvalidMode));
    assert_eq!(run(&[], "x", 1, vec![]), Err(ObjectError::NoSelectionsRemaining));
    assert_eq!(ObjectError::InvalidSymbolKind("Bogus".to_string()).message(), "invalid symbol kind 'Bogus'");
    assert_eq!(ObjectError::InvalidMode.message(), "lsp-object: invalid mode");
}

#[test]
fn object_kind_filter() {
    assert_eq!(run(&["Variable"], "]", 1, vec![cursor_at(1, 1)]), Ok("select 4.5,4.5".to_string()));
}

#[test]
fn breadcrumbs_of_enclosing_symbols() {
    let command = breadcrumbs_command(&symbols(), "file.rs", 4, None, &text(), OffsetEncoding::Utf8);
    assert_eq!(
        command,
        Some("evaluate-commands -draft -- 'buffer ''file.rs''\ntry ''set-option window lsp_modeline_breadcrumbs ''''b > x '''''''".to_string())
    );
}

#[test]
fn breadcrumbs_with_kind_prefix_and_outside_symbols() {
    let mapping = vec![("Function".to_string(), "fn".to_string())];
    let command = breadcrumbs_command(&symbols(), "file.rs", 2, Some(&mapping), &text(), OffsetEncoding::Utf8);
    assert_eq!(
        command,
        Some("evaluate-commands -draft -- 'buffer ''file.rs''\ntry ''set-option window lsp_modeline_breadcrumbs ''''fn a '''''''".to_string())
    );
    let outside = breadcrumbs_command(&symbols(), "file.rs", 6, None, &text(), OffsetEncoding::Utf8);
    assert_eq!(
        outside,
        Some("evaluate-commands -draft -- 'buffer ''file.rs''\ntry ''set-option window lsp_modeline_breadcrumbs '''' '''''''".to_string())
    );
    assert_eq!(breadcrumbs_command(&vec![], "file.rs", 1, None, &text(), OffsetEncoding::Utf8), None);
}

#[test]
fn edit_at_range_selects_in_insert_or_normal_mode() {
    let r = KakouneRange { start: pos(1, 2), end: pos(3, 4) };
    assert_eq!(edit_at_range("a b.rs", r, true), "edit -existing 'a b.rs'\nselect 3.4,1.2\nexecute-keys <c-s>vv");
    assert_eq!(
        edit_at_range("x", r, false),
        "edit -existing x\nselect 3.4,1.2\nexecute-keys <a-semicolon><c-s><a-semicolon>vv"
    );
}

#[test]
fn symbol_menu_lists_qualified_names() {
    let menu = symbol_menu("file.rs", &symbols(), &text(), OffsetEncoding::Utf8);
    assert_eq!(
        menu,
        Some("lsp-menu -select-cmds a 'edit -existing ''file.rs''\nselect 1.4,1.4\nexecute-keys <a-semicolon><c-s><a-semicolon>vv' 'edit -existing ''file.rs''\nselect 1.4,1.4\nexecute-keys <a-semicolon><c-s><a-semicolon>vv' b 'edit -existing ''file.rs''\nselect 3.4,3.4\nexecute-keys <a-semicolon><c-s><a-semicolon>vv' 'edit -existing ''file.rs''\nselect 3.4,3.4\nexecute-keys <a-semicolon><c-s><a-semicolon>vv' 'b > x' 'edit -existing ''file.rs''\nselect 4.5,4.5\nexecute-keys <a-semicolon><c-s><a-semicolon>vv' 'edit -existing ''file.rs''\nselect 4.5,4.5\nexecute-keys <a-semicolon><c-s><a-semicolon>vv'".to_string())
    );
    assert_eq!(symbol_menu("file.rs", &vec![], &text(), OffsetEncoding::Utf8), None);
}

#[test]
fn symbol_search_goes_to_first_match() {
    assert_eq!(
        symbol_search("file.rs", &symbols(), "x", &text(), OffsetEncoding::Utf8),
        "evaluate-commands 'edit -existing ''file.rs''\nselect 4.5,4.5\nexecute-keys <c-s>vv'"
    );
    assert_eq!(symbol_search("file.rs", &symbols(), "zzz", &text(), OffsetEncoding::Utf8), "");
}

#[test]
fn next_and_previous_symbols() {
    let run = |next: bool, line: u32, column: u32, kinds: Vec<SymbolKind>| {
        next_or_prev_symbol_details(&symbols(), next, pos(line, column), &kinds, &text(), OffsetEncoding::Utf8)
    };
    assert_eq!(run(true, 1, 1, vec![]), Some((pos(1, 4), "a".to_string(), SymbolKind(12))));
    assert_eq!(run(true, 2, 1, vec![]), Some((pos(3, 4), "b".to_string(), SymbolKind(12))));
    assert_eq!(run(true, 3, 5, vec![]), Some((pos(4, 5), "x".to_string(), SymbolKind(13))));
    assert_eq!(run(false, 4, 1, vec![]), Some((pos(3, 4), "b".to_string(), SymbolKind(12))));
    assert_eq!(run(false, 1, 2, vec![]), None);
    assert_eq!(run(true, 1, 1, vec![SymbolKind(13)]), Some((pos(4, 5), "x".to_string(), SymbolKind(13))));
}
