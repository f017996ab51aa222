use kak_lsp::language_features::code_action::{
    code_action_or_command_to_editor_command, code_actions_menu, editor_code_actions, execute_command_editor_command,
    invalid_pattern_message, pick_single_action, should_request_whole_lines, whole_line_range, ActionChoice,
    CodeActionFilter, CodeActionOrCommand, RangeReply, ServerCommand,
};
use kak_lsp::types::{OffsetEncoding, Position, Range};

fn command(name: &str, args: &str) -> ServerCommand {
    ServerCommand { command: name.to_string(), arguments_json: args.to_string() }
}

fn run_tests() -> ActionChoice {
    ActionChoice {
        action: CodeActionOrCommand::Command { title: "Run tests".to_string(), command: command("test.run", "[]") },
        may_resolve: false,
    }
}

fn extract() -> ActionChoice {
    ActionChoice {
        action: CodeActionOrCommand::CodeAction {
            title: "Extract function\nmore details".to_string(),
            kind: Some("refactor.extract".to_string()),
            command: None,
            edit_json: Some("{}".to_string()),
            action_json: "{\"title\":\"Extract function\"}".to_string(),
        },
        may_resolve: true,
    }
}

fn fix_import() -> ActionChoice {
    ActionChoice {
        action: CodeActionOrCommand::CodeAction {
            title: "Fix import".to_string(),
            kind: Some("quickfix".to_string()),
            command: Some(command("fix", "null")),
            edit_json: None,
            action_json: "{\"title\":\"Fix import\"}".to_string(),
        },
        may_resolve: true,
    }
}

fn do_it() -> ActionChoice {
    ActionChoice {
        action: CodeActionOrCommand::CodeAction {
            title: "Do-it".to_string(),
            kind: None,
            command: Some(command("x", "[1]")),
            edit_json: None,
            action_json: "{}".to_string(),
        },
        may_resolve: false,
    }
}

fn offered() -> Vec<ActionChoice> {
    vec![run_tests(), extract(), fix_import(), do_it()]
}

#[test]
fn code_actions_menu_sorted_by_kind() {
    let shown = editor_code_actions(&offered(), false, &None, false, false, "[A]");
    assert_eq!(
        shown,
        "evaluate-commands -- 'set-option global lsp_code_action_indicator [A]\nlsp-show-code-actions ''Fix import'' ''lsp-code-action-resolve-request ''''{\"title\":\"Fix import\"}'''''' ''Extract function'' ''lsp-apply-workspace-edit ''''{}'''''' ''Run tests'' ''lsp-execute-command ''''test.run'''' ''''[]'''''' Do-it ''\nlsp-execute-command x ''''[1]''''''\n'"
    );
}

#[test]
fn code_actions_perform_menu_auto_single() {
    let shown = code_actions_menu(&offered(), true, true, "[A]");
    assert_eq!(
        shown,
        "lsp-perform-code-action -auto-single 'Fix import' 'lsp-code-action-resolve-request ''{\"title\":\"Fix import\"}''' 'Extract function' 'lsp-apply-workspace-edit ''{}''' 'Run tests' 'lsp-execute-command ''test.run'' ''[]''' Do-it '\nlsp-execute-command x ''[1]'''\n"
    );
}

#[test]
fn code_actions_none_offered() {
    assert_eq!(editor_code_actions(&vec![], false, &None, true, false, "[A]"), "lsp-show-error 'no actions available'");
    assert_eq!(editor_code_actions(&vec![], false, &None, false, false, "[A]"), "lsp-hide-code-actions\n");
}

#[test]
fn code_actions_sync_single_action() {
    let shown = editor_code_actions(&vec![extract()], true, &None, false, false, "[A]");
    assert_eq!(shown, "evaluate-commands -- 'lsp-apply-workspace-edit-sync ''{}'''");
}

#[test]
fn code_actions_sync_several_or_none() {
    let several = editor_code_actions(&offered(), true, &None, false, false, "[A]");
    assert_eq!(several, "evaluate-commands -- 'fail lsp-code-actions: ''multiple matching actions'''");
    let none = editor_code_actions(&vec![], true, &None, false, false, "[A]");
    assert_eq!(none, "evaluate-commands -- 'fail lsp-code-actions: ''no matching action available'''");
}

#[test]
fn code_actions_by_pattern() {
    let filter = Some(CodeActionFilter::ByRegex("^Extract".to_string()));
    let shown = editor_code_actions(&offered(), false, &filter, false, false, "[A]");
    assert_eq!(shown, "evaluate-commands -- 'lsp-apply-workspace-edit ''{}'''");
    let nothing = Some(CodeActionFilter::ByRegex("^Nothing$".to_string()));
    let shown = editor_code_actions(&offered(), false, &nothing, false, false, "[A]");
    assert_eq!(shown, "evaluate-commands -- 'lsp-show-error ''no matching action available'''");
}

#[test]
fn code_actions_by_kind_shows_menu() {
    let filter = Some(CodeActionFilter::ByKind(vec!["quickfix".to_string()]));
    let shown = editor_code_actions(&vec![fix_import()], false, &filter, true, false, "[A]");
    assert_eq!(
        shown,
        "lsp-perform-code-action 'Fix import' 'lsp-code-action-resolve-request ''{\"title\":\"Fix import\"}'''\n"
    );
}

#[test]
fn code_actions_invalid_pattern() {
    let filter = Some(CodeActionFilter::ByRegex("(".to_string()));
    let shown = editor_code_actions(&offered(), true, &filter, false, false, "[A]");
    assert!(shown.starts_with("lsp-show-error 'invalid pattern: regex parse error"));
    assert!(shown.ends_with("'"));
    assert_eq!(invalid_pattern_message("it's bad"), "lsp-show-error 'invalid pattern: it''s bad'");
}

#[test]
fn pick_single_action_by_marks() {
    let shown = pick_single_action(&offered(), &vec![false, false, false, true], false);
    assert_eq!(shown, "evaluate-commands -- '\nlsp-execute-command x ''[1]'''");
}

#[test]
fn code_action_commands() {
    assert_eq!(code_action_or_command_to_editor_command(&do_it().action, false, false), "\nlsp-execute-command x '[1]'");
    assert_eq!(execute_command_editor_command(&command("test.run", "[]"), true), "lsp-execute-command-sync 'test.run' '[]'");
    assert_eq!(
        code_action_or_command_to_editor_command(&fix_import().action, false, false),
        "\nlsp-execute-command fix null"
    );
}

fn range(l1: u32, c1: u32, l2: u32, c2: u32) -> Range {
    Range { start: Position { line: l1, character: c1 }, end: Position { line: l2, character: c2 } }
}

#[test]
fn whole_lines_asked_again() {
    let empty_inside = RangeReply { range: Some(range(1, 4, 1, 8)), empty_reply: true };
    let unasked = RangeReply { range: None, empty_reply: false };
    assert!(should_request_whole_lines(false, &vec![empty_inside, unasked]));
    assert!(!should_request_whole_lines(true, &vec![empty_inside]));
    let at_start = RangeReply { range: Some(range(1, 0, 1, 8)), empty_reply: true };
    assert!(!should_request_whole_lines(false, &vec![empty_inside, at_start]));
    let with_actions = RangeReply { range: Some(range(1, 4, 1, 8)), empty_reply: false };
    assert!(!should_request_whole_lines(false, &vec![with_actions]));
}

#[test]
fn whole_line_range_widens() {
    let text = ropey::Rope::from_str("fn main() {\n    let x = 1;\n}\n");
    assert_eq!(whole_line_range(&range(1, 4, 1, 8), &text, OffsetEncoding::Utf8), range(1, 0, 1, 14));
    let text = ropey::Rope::from_str("a\nhéllo\n");
    assert_eq!(whole_line_range(&range(0, 1, 1, 2), &text, OffsetEncoding::Utf8), range(0, 0, 1, 6));
    assert_eq!(whole_line_range(&range(0, 1, 1, 2), &text, OffsetEncoding::Utf16), range(0, 0, 1, 5));
}
