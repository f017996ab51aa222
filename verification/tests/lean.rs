use kak_lsp::language_features::lean::{plain_goal, plain_term_goal};

#[test]
fn lean_goals_in_scratch_buffer() {
    let answers = vec![Some("⊢ a = a".to_string()), None, Some("\n⊢ b".to_string())];
    assert_eq!(
        plain_goal("*goals*", &answers),
        "evaluate-commands -save-regs a 'edit -scratch -- ''*goals*''\nset-option buffer filetype lean-goals\nset-register a ''⊢ a = a\n⊢ b''\nexecute-keys -draft ''%c<c-r>a<esc>gg''\n'"
    );
}

#[test]
fn lean_term_goal_in_scratch_buffer() {
    assert_eq!(
        plain_term_goal("*goals*", &vec![Some("x : Nat".to_string())]),
        "evaluate-commands -save-regs a %<\n    edit -scratch -- '*goals*'\n    set-option buffer filetype lean-goals\n    set-register a 'x : Nat'\n    execute-keys -draft '%c<c-r>a<esc>gg'\n>\n"
    );
}
