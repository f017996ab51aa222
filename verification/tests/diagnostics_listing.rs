use kak_lsp::diagnostics::listing::{editor_diagnostics, FileDiagnostics, ListedDiagnostic};
use kak_lsp::diagnostics::{Diagnostic, DiagnosticSeverity, RelatedInformation};
use kak_lsp::types::{KakounePosition, Position, Range};

fn diagnostic(severity: DiagnosticSeverity, message: &str) -> Diagnostic {
    Diagnostic {
        range: Range { start: Position { line: 0, character: 0 }, end: Position { line: 0, character: 1 } },
        severity: Some(severity),
        code: None,
        code_description: None,
        source: None,
        message: message.to_string(),
        deprecated: false,
        unnecessary: false,
    }
}

fn listed(position: Option<(u32, u32)>, server: &str, d: Diagnostic, related: Vec<RelatedInformation>) -> ListedDiagnostic {
    ListedDiagnostic {
        position: position.map(|(line, column)| KakounePosition { line, column }),
        server_name: server.to_string(),
        diagnostic: d,
        related,
    }
}

fn workspace() -> Vec<FileDiagnostics> {
    vec![
        FileDiagnostics {
            path: "/root/src/a.rs".to_string(),
            diagnostics: vec![
                listed(Some((3, 5)), "ra", diagnostic(DiagnosticSeverity::Error, "bad thing"), vec![]),
                listed(
                    Some((10, 1)),
                    "ra",
                    diagnostic(DiagnosticSeverity::Warning, "line one\nline two"),
                    vec![RelatedInformation {
                        path: "src/b.rs".to_string(),
                        position: KakounePosition { line: 1, column: 1 },
                        message: "see here".to_string(),
                    }],
                ),
            ],
        },
        FileDiagnostics {
            path: "/other/c.rs".to_string(),
            diagnostics: vec![listed(Some((2, 2)), "ra", diagnostic(DiagnosticSeverity::Hint, "h"), vec![])],
        },
    ]
}

#[test]
fn diagnostics_list_goes_to_first_of_buffer() {
    let command = editor_diagnostics(&workspace(), "/root/src/a.rs", KakounePosition { line: 5, column: 1 }, "/root");
    assert_eq!(
        command,
        "lsp-show-goto-buffer *diagnostics* lsp-diagnostics '/root' 'src/a.rs:3:5: [error][ra] bad thing\nsrc/a.rs:10:1: [warning][ra] line one\u{240A}line two\nsrc/b.rs:1:1: [ra] see here\n\n/other/c.rs:2:2: [hint] h'\nlsp-initial-goto-position 1"
    );
}

#[test]
fn diagnostics_list_goes_to_last_before_cursor() {
    let command = editor_diagnostics(&workspace(), "/root/src/a.rs", KakounePosition { line: 12, column: 1 }, "/root");
    assert!(command.ends_with("\nlsp-initial-goto-position 2"));
    let command = editor_diagnostics(&workspace(), "/other/c.rs", KakounePosition { line: 1, column: 1 }, "/root");
    assert!(command.ends_with("\nlsp-initial-goto-position 5"));
}

#[test]
fn diagnostics_list_with_unknown_position() {
    let files = vec![FileDiagnostics {
        path: "/root/x.rs".to_string(),
        diagnostics: vec![
            listed(None, "s", diagnostic(DiagnosticSeverity::Error, "lost"), vec![]),
            listed(Some((1, 1)), "s", diagnostic(DiagnosticSeverity::Error, "e"), vec![]),
        ],
    }];
    let command = editor_diagnostics(&files, "/root/x.rs", KakounePosition { line: 1, column: 1 }, "/root");
    assert_eq!(
        command,
        "lsp-show-goto-buffer *diagnostics* lsp-diagnostics '/root' '\nx.rs:1:1: [error][s] e'\nlsp-initial-goto-position 2"
    );
    let empty = editor_diagnostics(&vec![], "/root/x.rs", KakounePosition { line: 1, column: 1 }, "/root");
    assert_eq!(empty, "lsp-show-goto-buffer *diagnostics* lsp-diagnostics '/root' ''\nlsp-initial-goto-position 1");
}
