use kak_lsp::diagnostics::{
    diagnostic_text, format_related_information, gather_line_flags, Diagnostic, DiagnosticCode, DiagnosticSeverity,
    RelatedInformation,
};
use kak_lsp::types::{KakounePosition, Position, Range};

fn diagnostic(line: u32, severity: Option<DiagnosticSeverity>, message: &str) -> Diagnostic {
    Diagnostic {
        range: Range { start: Position { line, character: 0 }, end: Position { line, character: 1 } },
        severity,
        code: None,
        code_description: None,
        source: None,
        message: message.to_string(),
        deprecated: false,
        unnecessary: false,
    }
}

#[test]
fn diagnostic_text_inline_and_hover() {
    let mut d = diagnostic(0, Some(DiagnosticSeverity::Error), "  mismatched types\nexpected u32  ");
    d.source = Some("rustc".to_string());
    d.code = Some(DiagnosticCode::String("E0308".to_string()));
    d.code_description = Some("https://example.com/E0308".to_string());
    assert_eq!(
        diagnostic_text(&d, Some("rust-analyzer"), false),
        "[error][rust-analyzer][rustc][E0308] mismatched types␊expected u32 -- Description: https://example.com/E0308"
    );
    assert_eq!(
        diagnostic_text(&d, None, true),
        "[error][rustc][E0308]\nmismatched types\nexpected u32\nDescription: https://example.com/E0308"
    );
}

#[test]
fn diagnostic_text_severities_and_numeric_codes() {
    let mut d = diagnostic(0, None, "m");
    d.code = Some(DiagnosticCode::Number(-12));
    assert_eq!(diagnostic_text(&d, None, false), "[warning][-12] m");
    d.severity = Some(DiagnosticSeverity::Hint);
    assert_eq!(diagnostic_text(&d, None, false), "[hint][-12] m");
    d.severity = Some(DiagnosticSeverity::Information);
    assert_eq!(diagnostic_text(&d, None, false), "[info][-12] m");
    d.severity = Some(DiagnosticSeverity::Other(7));
    assert_eq!(diagnostic_text(&d, None, false), "[warning][-12] m");
}

#[test]
fn related_information_lines() {
    let infos = vec![
        RelatedInformation {
            path: "src/a.rs".to_string(),
            position: KakounePosition { line: 3, column: 7 },
            message: "first".to_string(),
        },
        RelatedInformation {
            path: "src/b.rs".to_string(),
            position: KakounePosition { line: 10, column: 1 },
            message: "second".to_string(),
        },
    ];
    assert_eq!(
        format_related_information(&infos, Some("ra")),
        Some("\nsrc/a.rs:3:7: [ra] first\nsrc/b.rs:10:1: [ra] second".to_string())
    );
    assert_eq!(format_related_information(&infos[..1].to_vec(), None), Some("\nsrc/a.rs:3:7: first".to_string()));
    assert_eq!(format_related_information(&vec![], None), None);
}

#[test]
fn line_flags_merge_diagnostics_and_lenses() {
    let diagnostics = vec![
        diagnostic(0, Some(DiagnosticSeverity::Error), "e"),
        diagnostic(2, None, "w"),
        diagnostic(4, Some(DiagnosticSeverity::Hint), "h"),
    ];
    let (flags, errors, hints, infos, warnings) = gather_line_flags(&diagnostics, &vec![1, 2, 5]);
    assert_eq!(
        flags,
        "'1|{LineFlagError}%opt[lsp_diagnostic_line_error_sign]' \
         '2|%opt[lsp_code_lens_sign]' \
         '3|{LineFlagWarning}%opt[lsp_diagnostic_line_warning_sign]' \
         '5|{LineFlagHint}%opt[lsp_diagnostic_line_hint_sign]' \
         '6|%opt[lsp_code_lens_sign]'"
    );
    assert_eq!((errors, hints, infos, warnings), (1, 1, 0, 1));
}

#[test]
fn line_flags_of_nothing() {
    let (flags, errors, hints, infos, warnings) = gather_line_flags(&vec![], &vec![]);
    assert_eq!(flags, "");
    assert_eq!((errors, hints, infos, warnings), (0, 0, 0, 0));
}
