use kak_lsp::editor_transport::{addressed_command, show_error};

#[test]
fn responses_run_in_the_client_that_asked() {
    assert_eq!(
        addressed_command(&Some("client0".to_string()), "echo hi"),
        "evaluate-commands -client client0 -verbatim -- echo hi"
    );
    assert_eq!(addressed_command(&Some(String::new()), "echo hi"), "echo hi");
    assert_eq!(addressed_command(&None, "echo hi"), "echo hi");
}

#[test]
fn errors_are_shown_or_failed() {
    assert_eq!(show_error(false, false, "it's broken"), Some("lsp-show-error 'it''s broken'".to_string()));
    assert_eq!(show_error(false, true, "no server"), Some("fail -- 'no server'".to_string()));
    assert_eq!(show_error(true, true, "no server"), Some("fail -- 'no server'".to_string()));
    assert_eq!(show_error(true, false, "no server"), None);
}
