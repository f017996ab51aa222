use kak_lsp::language_features::completion::{
    completion_item_resolve, completion_menu_text, editor_completion, editor_completion_item_resolve, order_completions,
    resolved_item_info, CompletionItem, CompletionTextEdit, Documentation, OfferedCompletion, ResolveStep,
    ResolvedAction,
};
use kak_lsp::types::{EditorCompletion, KakounePosition, OffsetEncoding, Position, Range, TextDocumentCompletionParams};

fn item(label: &str) -> CompletionItem {
    CompletionItem {
        label: label.to_string(),
        kind: None,
        detail: None,
        documentation: None,
        sort_text: None,
        filter_text: None,
        insert_text: None,
        snippet: false,
        text_edit: None,
        has_additional_edits: false,
    }
}

fn offered(item: CompletionItem) -> OfferedCompletion {
    OfferedCompletion { item, resolve_provider: false, offset_encoding: OffsetEncoding::Utf8 }
}

fn params(line: u32, offset: u32) -> TextDocumentCompletionParams {
    TextDocumentCompletionParams {
        position: KakounePosition { line, column: offset + 2 },
        completion: EditorCompletion { offset },
    }
}

#[test]
fn completions_come_in_sort_text_order_stably() {
    let mut b = item("first");
    b.sort_text = Some("b".to_string());
    let mut a = item("second");
    a.sort_text = Some("a".to_string());
    let c = item("c");
    let mut b2 = item("fourth");
    b2.sort_text = Some("b".to_string());
    let items = vec![offered(b), offered(a), offered(c), offered(b2)];
    assert_eq!(order_completions(&items), vec![1, 0, 3, 2]);
    assert_eq!(order_completions(&vec![]), Vec::<usize>::new());
}

#[test]
fn no_items_give_no_command() {
    assert_eq!(editor_completion(&vec![], &params(1, 3), 7, None, false), None);
}

#[test]
fn plain_item_becomes_one_entry() {
    let items = vec![offered(item("foo"))];
    let expected = "evaluate-commands -- 'set-option window lsp_completions 1.3@7 \
''foo|lsp-completion-item-selected 0\ninfo -markup -style menu -- %\u{a7}\u{a7}|foo''\n\
set-option window lsp_completions_timestamp 7'";
    assert_eq!(editor_completion(&items, &params(1, 3), 7, None, false), Some(expected.to_string()));
}

#[test]
fn edits_tell_where_the_word_starts() {
    let text = ropey::Rope::from_str("let ab\n");
    let mut i = item("abc");
    i.text_edit = Some(CompletionTextEdit::Edit {
        range: Range { start: Position { line: 0, character: 4 }, end: Position { line: 0, character: 6 } },
        new_text: "abc".to_string(),
    });
    let items = vec![offered(i.clone()), offered(i)];
    let out = editor_completion(&items, &params(1, 9), 2, Some(&text), false).unwrap();
    assert!(out.contains("lsp_completions 1.5@2 "));

    let mut other = item("abd");
    other.text_edit = Some(CompletionTextEdit::Edit {
        range: Range { start: Position { line: 0, character: 5 }, end: Position { line: 0, character: 6 } },
        new_text: "abd".to_string(),
    });
    let mut first = item("abc");
    first.text_edit = Some(CompletionTextEdit::Edit {
        range: Range { start: Position { line: 0, character: 4 }, end: Position { line: 0, character: 6 } },
        new_text: "abc".to_string(),
    });
    let disagreeing = vec![offered(first), offered(other)];
    let out = editor_completion(&disagreeing, &params(1, 9), 2, Some(&text), false).unwrap();
    assert!(out.contains("lsp_completions 1.9@2 "));
}

#[test]
fn filter_text_differing_from_insert_text_inserts_on_accept() {
    let mut i = item("x");
    i.insert_text = Some("xyz".to_string());
    let out = editor_completion(&vec![offered(i)], &params(1, 1), 1, None, false).unwrap();
    assert!(out.contains("''x|lsp-completion-item-selected 0\n"));
    assert!(out.contains("\nlsp-snippets-insert-completion ''''xyz$0''''|x''"));
}

#[test]
fn snippet_shows_its_text_and_expands() {
    let mut i = item("foo");
    i.insert_text = Some("foo(${1:a}, $2)".to_string());
    i.snippet = true;
    let out = editor_completion(&vec![offered(i.clone())], &params(1, 1), 1, None, true).unwrap();
    assert!(out.contains("''foo(a, )|lsp-completion-item-selected 0\n"));
    assert!(out.contains("lsp-snippets-insert-completion ''''foo(${1:a}, $2)$0''''"));
    // Without snippet support the snippet is inserted as it is written.
    let out = editor_completion(&vec![offered(i)], &params(1, 1), 1, None, false).unwrap();
    assert!(out.contains("''foo|lsp-completion-item-selected 0\n"));
    assert!(out.contains("lsp-snippets-insert-completion ''''foo(${1:a}, $2)$0''''"));
}

#[test]
fn kinds_are_aligned_after_the_widest_label() {
    let wide = item("\u{65e5}");
    let mut narrow = item("a");
    narrow.kind = Some("Function".to_string());
    let out = editor_completion(&vec![offered(wide), offered(narrow)], &params(1, 1), 1, None, false).unwrap();
    // The wide character takes two columns, so one blank pads "a".
    assert!(out.contains("|a  {MenuInfo}Function''"));
    assert!(!out.contains("|a   {MenuInfo}"));
}

#[test]
fn selecting_an_item_resolves_it_when_its_server_can() {
    let mut i = item("foo");
    i.has_additional_edits = true;
    let mut c = offered(i.clone());
    c.resolve_provider = true;
    let out = editor_completion(&vec![c], &params(1, 1), 1, None, false).unwrap();
    assert!(out.contains("lsp-completion-item-selected 0\nlsp-completion-item-resolve\n"));
    let out = editor_completion(&vec![offered(i)], &params(1, 1), 1, None, false).unwrap();
    assert!(out.contains("lsp-completion-on-accept %{ lsp-completion-item-resolve-request false }\n"));
}

#[test]
fn menu_text_joins_detail_and_documentation() {
    let mut i = item("foo");
    i.detail = Some("fn foo()".to_string());
    i.documentation = Some(Documentation::PlainText("a{b".to_string()));
    assert_eq!(completion_menu_text(&i), "fn foo()\n\n---\n\na\\{b");
    assert_eq!(resolved_item_info(&i), "info -markup -style menu -- %\u{a7}fn foo()\n\n---\n\na\\{b\u{a7}");
    let mut only = item("foo");
    only.detail = Some("d\u{a7}".to_string());
    assert_eq!(completion_menu_text(&only), "d\u{a7}");
    assert_eq!(resolved_item_info(&only), "info -markup -style menu -- %\u{a7}d\u{a7}\u{a7}\u{a7}");
    assert_eq!(completion_menu_text(&item("foo")), "");
}

#[test]
fn resolve_requests_are_checked() {
    let client = Some("client0".to_string());
    let mut with_edits = item("a");
    with_edits.has_additional_edits = true;
    let mut documented = item("b");
    documented.detail = Some("d".to_string());
    documented.documentation = Some(Documentation::PlainText("doc".to_string()));
    let items = vec![with_edits, documented, item("c")];
    assert_eq!(completion_item_resolve(&None, &client, 1, 1, 0, &items, false), ResolveStep::Ignore);
    assert_eq!(completion_item_resolve(&client, &Some("other".to_string()), 1, 1, 0, &items, false), ResolveStep::Ignore);
    assert_eq!(completion_item_resolve(&client, &client, 2, 1, 0, &items, false), ResolveStep::Ignore);
    assert_eq!(completion_item_resolve(&client, &client, 1, 1, 3, &items, false), ResolveStep::Ignore);
    assert_eq!(completion_item_resolve(&client, &client, 1, 1, 0, &items, false), ResolveStep::ApplyEdits);
    assert_eq!(completion_item_resolve(&client, &client, 1, 1, 2, &items, false), ResolveStep::Resolve);
    assert_eq!(completion_item_resolve(&client, &client, 1, 1, 1, &items, true), ResolveStep::Ignore);
    assert_eq!(completion_item_resolve(&client, &client, 1, 1, 0, &items, true), ResolveStep::Resolve);
}

#[test]
fn resolved_items_show_new_documentation() {
    let mut resolved = item("foo");
    resolved.detail = Some("fn foo()".to_string());
    resolved.documentation = Some(Documentation::Markdown("text".to_string()));
    match editor_completion_item_resolve(true, &None, &None, &resolved) {
        ResolvedAction::ShowInfo(s) => assert!(s.starts_with("info -markup -style menu -- %\u{a7}fn foo()\n\n---\n\n")),
        _ => panic!("expected the documentation to be shown"),
    }
    let same_detail = Some("fn foo()".to_string());
    assert!(matches!(editor_completion_item_resolve(true, &same_detail, &None, &resolved), ResolvedAction::Nothing));
    let mut accepted = item("foo");
    accepted.has_additional_edits = true;
    assert!(matches!(editor_completion_item_resolve(false, &None, &None, &accepted), ResolvedAction::ApplyEdits));
    assert!(matches!(editor_completion_item_resolve(false, &None, &None, &item("foo")), ResolvedAction::Nothing));
}
