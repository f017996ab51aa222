use kak_lsp::diagnostics::display::{diagnostics_display_command, diagnostics_displayable, store_diagnostics};
use kak_lsp::diagnostics::{Diagnostic, DiagnosticSeverity};
use kak_lsp::types::{OffsetEncoding, Position, Range};

fn diagnostic(l1: u32, c1: u32, l2: u32, c2: u32, severity: Option<DiagnosticSeverity>, message: &str) -> Diagnostic {
    Diagnostic {
        range: Range { start: Position { line: l1, character: c1 }, end: Position { line: l2, character: c2 } },
        severity,
        code: None,
        code_description: None,
        source: None,
        message: message.to_string(),
        deprecated: false,
        unnecessary: false,
    }
}

fn buffer_diagnostics() -> Vec<Diagnostic> {
    let mut unused = diagnostic(1, 8, 1, 9, Some(DiagnosticSeverity::Warning), "unused variable: `x`\nhelp: prefix it");
    unused.unnecessary = true;
    let mut old = diagnostic(0, 3, 0, 7, Some(DiagnosticSeverity::Error), "{oops} | bad");
    old.deprecated = true;
    vec![
        unused,
        old,
        diagnostic(1, 4, 1, 7, Some(DiagnosticSeverity::Hint), "hint here"),
        diagnostic(1, 0, 2, 0, None, "none § 100%"),
    ]
}

#[test]
fn diagnostics_display_of_a_buffer() {
    let text = ropey::Rope::from_str("fn main() {\n    let x = 1;\n}\n");
    let ds = buffer_diagnostics();
    let encs = vec![OffsetEncoding::Utf8; 4];
    assert!(diagnostics_displayable(&ds, &encs, &text, &vec![]));
    let command = diagnostics_display_command("/tmp/a b.rs", 7, &ds, &encs, &text, &vec![]);
    assert_eq!(
        command,
        "evaluate-commands -buffer '/tmp/a b.rs' %§set-option buffer lsp_diagnostic_error_count 1; set-option buffer lsp_diagnostic_hint_count 1; set-option buffer lsp_diagnostic_info_count 0; set-option buffer lsp_diagnostic_warning_count 2; set-option buffer lsp_inline_diagnostics 7 2.5,2.7|DiagnosticHint 2.9,2.9|DiagnosticWarning 1.4,1.7|DiagnosticError 2.1,2.1000000|DiagnosticWarning; set-option buffer lsp_inline_diagnostics_deprecated 7 1.4,1.7|DiagnosticTagDeprecated; set-option buffer lsp_inline_diagnostics_unnecessary 7 2.9,2.9|DiagnosticTagUnnecessary; evaluate-commands \"set-option buffer lsp_diagnostic_lines 7 '2|{LineFlagWarning}%opt[lsp_diagnostic_line_warning_sign]' '1|{LineFlagError}%opt[lsp_diagnostic_line_error_sign]' '2|{LineFlagHint}%opt[lsp_diagnostic_line_hint_sign]' '2|{LineFlagWarning}%opt[lsp_diagnostic_line_warning_sign]' '0|%opt[lsp_diagnostic_line_error_sign]'\"; set-option buffer lsp_inlay_diagnostics 7 \"2|%opt[lsp_inlay_diagnostic_gap]{InlayDiagnosticWarning}%opt[lsp_inlay_diagnostic_sign]{InlayDiagnosticHint}%opt[lsp_inlay_diagnostic_sign] {InlayDiagnosticWarning}unused variable: `x`\" \"1|%opt[lsp_inlay_diagnostic_gap]{InlayDiagnosticError}%opt[lsp_inlay_diagnostic_sign] {InlayDiagnosticError}\\\\{oops} \\| bad\" \"3|%opt[lsp_inlay_diagnostic_gap]{InlayDiagnosticWarning}%opt[lsp_inlay_diagnostic_sign] {InlayDiagnosticWarning}none §§ 100%%\"§"
    );
}

#[test]
fn diagnostics_display_without_diagnostics() {
    let text = ropey::Rope::from_str("x\n");
    let command = diagnostics_display_command("a.rs", -1, &vec![], &vec![], &text, &vec![4]);
    assert_eq!(
        command,
        "evaluate-commands -buffer 'a.rs' %§set-option buffer lsp_diagnostic_error_count 0; set-option buffer lsp_diagnostic_hint_count 0; set-option buffer lsp_diagnostic_info_count 0; set-option buffer lsp_diagnostic_warning_count 0; set-option buffer lsp_inline_diagnostics -1 ; set-option buffer lsp_inline_diagnostics_deprecated -1 ; set-option buffer lsp_inline_diagnostics_unnecessary -1 ; evaluate-commands \"set-option buffer lsp_diagnostic_lines -1 '5|%opt[lsp_code_lens_sign]' '0|%opt[lsp_diagnostic_line_error_sign]'\"; set-option buffer lsp_inlay_diagnostics -1 §"
    );
}

#[test]
fn diagnostics_not_displayable() {
    let text = ropey::Rope::from_str("x\n");
    let ds = vec![diagnostic(u32::MAX, 0, u32::MAX, 1, None, "far")];
    assert!(!diagnostics_displayable(&ds, &vec![OffsetEncoding::Utf8], &text, &vec![]));
    assert!(!diagnostics_displayable(&ds, &vec![], &text, &vec![]));
}

#[test]
fn store_diagnostics_replaces_a_servers_own() {
    let stored = vec![(1usize, "a"), (2, "b"), (1, "c"), (3, "d")];
    let after = store_diagnostics(stored, 1, vec!["e", "f"]);
    assert_eq!(after, vec![(2, "b"), (3, "d"), (1, "e"), (1, "f")]);
    let after = store_diagnostics(after, 4, vec![]);
    assert_eq!(after, vec![(2, "b"), (3, "d"), (1, "e"), (1, "f")]);
}
