use kak_lsp::capabilities::SemanticLegend;
use kak_lsp::language_features::semantic_tokens::{semantic_tokens_command, semantic_tokens_decodable, SemanticToken};
use kak_lsp::types::{OffsetEncoding, SemanticTokenFace};
use ropey::Rope;

fn token(delta_line: u32, delta_start: u32, length: u32, token_type: u32, token_modifiers_bitset: u32) -> SemanticToken {
    SemanticToken { delta_line, delta_start, length, token_type, token_modifiers_bitset }
}

fn legend() -> SemanticLegend {
    SemanticLegend {
        token_types: vec!["function".to_string(), "variable".to_string(), "keyword".to_string()],
        token_modifiers: vec!["declaration".to_string(), "readonly".to_string()],
    }
}

fn face(face: &str, token: &str, modifiers: &[&str]) -> SemanticTokenFace {
    SemanticTokenFace {
        face: face.to_string(),
        token: token.to_string(),
        modifiers: modifiers.iter().map(|m| m.to_string()).collect(),
    }
}

fn faces() -> Vec<SemanticTokenFace> {
    vec![
        face("keyword", "keyword", &[]),
        face("function", "function", &[]),
        face("variable", "variable", &[]),
        face("const_variable", "variable", &["readonly"]),
        face("decl_variable", "variable", &["declaration"]),
    ]
}

#[test]
fn semantic_tokens_are_placed_and_faced() {
    let text = Rope::from_str("fn main() {\n    let x = 1;\n}\n");
    let tokens = vec![token(0, 0, 2, 2, 0), token(0, 3, 4, 0, 1), token(1, 4, 3, 2, 0), token(0, 4, 1, 1, 3)];
    assert!(semantic_tokens_decodable(&tokens, &legend(), &text, OffsetEncoding::Utf16));
    let command = semantic_tokens_command("file.rs", 3, &tokens, &legend(), &faces(), &text, OffsetEncoding::Utf16);
    assert_eq!(
        command,
        "eval -buffer 'file.rs' -verbatim -- set buffer lsp_semantic_tokens 3 \
         1.2,1.1|keyword 1.7,1.4|function 2.7,2.5|keyword 2.9,2.9|decl_variable"
    );
}

#[test]
fn semantic_tokens_without_rule_get_no_face() {
    let text = Rope::from_str("let x\n");
    let tokens = vec![token(0, 4, 1, 1, 2)];
    let rules = vec![face("decl", "variable", &["declaration"])];
    let command = semantic_tokens_command("buf", -1, &tokens, &legend(), &rules, &text, OffsetEncoding::Utf8);
    assert_eq!(command, "eval -buffer buf -verbatim -- set buffer lsp_semantic_tokens -1 ");
}

#[test]
fn semantic_tokens_count_chars_for_utf16() {
    let text = Rope::from_str("é x\n");
    let tokens = vec![token(0, 2, 1, 1, 0)];
    let rules = vec![face("var", "variable", &[])];
    let utf16 = semantic_tokens_command("b", 1, &tokens, &legend(), &rules, &text, OffsetEncoding::Utf16);
    assert_eq!(utf16, "eval -buffer b -verbatim -- set buffer lsp_semantic_tokens 1 1.4,1.4|var");
    let utf8 = semantic_tokens_command("b", 1, &tokens, &legend(), &rules, &text, OffsetEncoding::Utf8);
    assert_eq!(utf8, "eval -buffer b -verbatim -- set buffer lsp_semantic_tokens 1 1.3,1.3|var");
}

#[test]
fn semantic_tokens_outside_legend_are_refused() {
    let text = Rope::from_str("x\n");
    assert!(!semantic_tokens_decodable(&vec![token(0, 0, 1, 3, 0)], &legend(), &text, OffsetEncoding::Utf8));
    assert!(!semantic_tokens_decodable(&vec![token(0, 0, 1, 0, 4)], &legend(), &text, OffsetEncoding::Utf8));
    assert!(!semantic_tokens_decodable(&vec![token(0, u32::MAX, 1, 0, 0)], &legend(), &text, OffsetEncoding::Utf8));
    assert!(semantic_tokens_decodable(&vec![], &legend(), &text, OffsetEncoding::Utf8));
}
