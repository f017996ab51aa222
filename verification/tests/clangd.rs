use kak_lsp::language_features::clangd::switch_source_header;

#[test]
fn switching_opens_the_counterpart() {
    assert_eq!(
        switch_source_header(Some("file:///p/a.h")),
        Some("evaluate-commands -try-client %opt{jumpclient} -verbatim -- edit -existing 'file:///p/a.h'".to_string())
    );
    assert_eq!(switch_source_header(None), None);
}
