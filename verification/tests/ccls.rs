use kak_lsp::language_features::ccls::{
    semantic_highlighting_command, semantic_symbols_convertible, SemanticSymbol, SemanticSymbolKind, StorageClass,
};
use kak_lsp::language_features::cquery;
use kak_lsp::types::{OffsetEncoding, Position, Range};

fn range(line: u32, a: u32, b: u32) -> Range {
    Range { start: Position { line, character: a }, end: Position { line, character: b } }
}

fn symbol(kind: SemanticSymbolKind, parent_kind: SemanticSymbolKind, storage: StorageClass, ranges: Vec<Range>) -> SemanticSymbol {
    SemanticSymbol { parent_kind, kind, is_type_member: None, storage, ls_ranges: ranges }
}

#[test]
fn kinds_and_storage_classes_read_their_numbers() {
    assert_eq!(SemanticSymbolKind::from_code(12), SemanticSymbolKind::Function);
    assert_eq!(SemanticSymbolKind::from_code(255), SemanticSymbolKind::Macro);
    assert_eq!(SemanticSymbolKind::from_code(100), SemanticSymbolKind::Unknown);
    assert_eq!(SemanticSymbolKind::TypeAlias.code(), 252);
    assert_eq!(StorageClass::from_code(2), StorageClass::Static);
    assert_eq!(StorageClass::from_code(9), StorageClass::NoClass);
    assert_eq!(cquery::StorageClass::from_code(3), cquery::StorageClass::Static);
    assert_eq!(cquery::StorageClass::from_code(7), cquery::StorageClass::Invalid);
    assert_eq!(cquery::StorageClass::Register.code(), 6);
}

#[test]
fn symbols_get_their_faces() {
    let none = StorageClass::NoClass;
    let face = |k, p, s| symbol(k, p, s, vec![]).get_face();
    assert_eq!(face(SemanticSymbolKind::Struct, SemanticSymbolKind::Unknown, none), "cqueryTypes");
    assert_eq!(face(SemanticSymbolKind::Variable, SemanticSymbolKind::Function, none), "cqueryFreeStandingVariables");
    assert_eq!(face(SemanticSymbolKind::Variable, SemanticSymbolKind::Namespace, none), "cqueryGlobalVariables");
    assert_eq!(face(SemanticSymbolKind::Field, SemanticSymbolKind::Class, StorageClass::Static), "cqueryStaticMemberVariables");
    assert_eq!(face(SemanticSymbolKind::Field, SemanticSymbolKind::Class, none), "cqueryMemberVariables");
    assert_eq!(face(SemanticSymbolKind::Constructor, SemanticSymbolKind::Class, none), "cqueryMemberFunctions");
    assert_eq!(face(SemanticSymbolKind::Number, SemanticSymbolKind::Class, none), "");
    let field = cquery::SemanticSymbol {
        parent_kind: SemanticSymbolKind::Class,
        kind: SemanticSymbolKind::Field,
        is_type_member: Some(true),
        storage: cquery::StorageClass::Static,
        ranges: vec![],
    };
    assert_eq!(field.get_face(), "cqueryStaticMemberVariables");
}

#[test]
fn highlighting_lists_faced_ranges() {
    let text = ropey::Rope::from_str("int x;\nint f();\n");
    let symbols = vec![
        symbol(SemanticSymbolKind::Variable, SemanticSymbolKind::Unknown, StorageClass::NoClass, vec![range(0, 4, 5)]),
        symbol(SemanticSymbolKind::Number, SemanticSymbolKind::Unknown, StorageClass::NoClass, vec![range(0, 0, 1)]),
        symbol(SemanticSymbolKind::Function, SemanticSymbolKind::Unknown, StorageClass::NoClass, vec![range(1, 4, 5), range(1, 4, 5)]),
    ];
    assert!(semantic_symbols_convertible(&symbols, &text, OffsetEncoding::Utf8));
    assert_eq!(
        semantic_highlighting_command("/a b.c", 3, &symbols, &text, OffsetEncoding::Utf8),
        "evaluate-commands -buffer '/a b.c' -verbatim -- set-option buffer cquery_semhl 3 \
1.5,1.5|cqueryGlobalVariables 2.5,2.5|cqueryFreeStandingFunctions 2.5,2.5|cqueryFreeStandingFunctions"
    );
    assert_eq!(
        semantic_highlighting_command("f", 1, &vec![], &text, OffsetEncoding::Utf8),
        "evaluate-commands -buffer f -verbatim -- set-option buffer cquery_semhl 1 "
    );
    let cq = vec![cquery::SemanticSymbol {
        parent_kind: SemanticSymbolKind::Unknown,
        kind: SemanticSymbolKind::Macro,
        is_type_member: None,
        storage: cquery::StorageClass::No,
        ranges: vec![range(0, 0, 3)],
    }];
    assert!(cquery::semantic_symbols_convertible(&cq, &text, OffsetEncoding::Utf8));
    assert_eq!(
        cquery::semantic_highlighting_command("f", -1, &cq, &text, OffsetEncoding::Utf8),
        "evaluate-commands -buffer f -verbatim -- set-option buffer cquery_semhl -1 1.3,1.1|cqueryMacros"
    );
    let far = vec![symbol(SemanticSymbolKind::Macro, SemanticSymbolKind::Unknown, StorageClass::NoClass, vec![range(u32::MAX, 0, 1)])];
    assert!(!semantic_symbols_convertible(&far, &text, OffsetEncoding::Utf8));
}
