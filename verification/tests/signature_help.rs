use kak_lsp::language_features::signature_help::{
    editor_signature_help, signature_help_valid, ParameterLabel, SignatureHelp, SignatureInformation,
};
use kak_lsp::types::{KakounePosition, OffsetEncoding};

fn help(label: &str, params: Vec<ParameterLabel>, sig_active: Option<u32>, help_active: Option<u32>) -> SignatureHelp {
    SignatureHelp {
        signatures: vec![SignatureInformation {
            label: label.to_string(),
            parameters: Some(params),
            active_parameter: sig_active,
        }],
        active_signature: None,
        active_parameter: help_active,
    }
}

fn at() -> KakounePosition {
    KakounePosition { line: 3, column: 7 }
}

#[test]
fn signature_help_bolds_simple_parameter() {
    let h = help(
        "fn foo(a: i32, b: u8) -> bool",
        vec![ParameterLabel::Simple("a: i32".to_string()), ParameterLabel::Simple("b: u8".to_string())],
        None,
        Some(1),
    );
    assert!(signature_help_valid(&h, OffsetEncoding::Utf8));
    assert_eq!(
        editor_signature_help(&h, at(), OffsetEncoding::Utf8),
        Some("lsp-show-signature-help 3.7 'fn foo(a: i32, {+b}b: u8{}) -> bool'".to_string())
    );
}

#[test]
fn signature_help_by_offsets() {
    let label = "f(é: {x}, y)";
    let h = help(label, vec![ParameterLabel::LabelOffsets(2, 8)], Some(0), None);
    assert_eq!(
        editor_signature_help(&h, at(), OffsetEncoding::Utf16),
        Some("lsp-show-signature-help 3.7 'f({+b}é: \\{x}{}, y)'".to_string())
    );
    let h = help(label, vec![ParameterLabel::LabelOffsets(2, 9)], Some(0), None);
    assert!(signature_help_valid(&h, OffsetEncoding::Utf8));
    assert_eq!(
        editor_signature_help(&h, at(), OffsetEncoding::Utf8),
        Some("lsp-show-signature-help 3.7 'f({+b}é: \\{x}{}, y)'".to_string())
    );
    let inside = help(label, vec![ParameterLabel::LabelOffsets(3, 9)], Some(0), None);
    assert!(!signature_help_valid(&inside, OffsetEncoding::Utf8));
    let reversed = help(label, vec![ParameterLabel::LabelOffsets(8, 2)], Some(0), None);
    assert!(!signature_help_valid(&reversed, OffsetEncoding::Utf16));
    let past = help(label, vec![ParameterLabel::LabelOffsets(2, 40)], Some(0), None);
    assert!(!signature_help_valid(&past, OffsetEncoding::Utf16));
}

#[test]
fn signature_help_without_highlight() {
    let h = help("f(é: {x}, y)", vec![ParameterLabel::Simple("y)".to_string())], Some(0), None);
    assert_eq!(
        editor_signature_help(&h, at(), OffsetEncoding::Utf16),
        Some("lsp-show-signature-help 3.7 'f(é: {x}, y)'".to_string())
    );
    let h = help("f(a)", vec![ParameterLabel::Simple("zzz".to_string())], Some(0), None);
    assert_eq!(editor_signature_help(&h, at(), OffsetEncoding::Utf16), Some("lsp-show-signature-help 3.7 'f(a)'".to_string()));
    let h = help("f(a)", vec![ParameterLabel::Simple("a".to_string())], Some(4), None);
    assert_eq!(editor_signature_help(&h, at(), OffsetEncoding::Utf16), Some("lsp-show-signature-help 3.7 'f(a)'".to_string()));
}

#[test]
fn signature_help_without_active_signature() {
    let mut h = help("f(a)", vec![], None, None);
    h.active_signature = Some(1);
    assert_eq!(editor_signature_help(&h, at(), OffsetEncoding::Utf16), None);
    h.signatures.clear();
    h.active_signature = None;
    assert_eq!(editor_signature_help(&h, at(), OffsetEncoding::Utf16), None);
}
