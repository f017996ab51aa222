use kak_lsp::language_features::call_hierarchy::{call_hierarchy_listing, format_call_hierarchy_calls, CallLocation, HierarchyCall};
use kak_lsp::types::KakounePosition;

fn loc(file: &str, line: u32, column: u32, text: &str) -> CallLocation {
    CallLocation { file: file.to_string(), position: KakounePosition { line, column }, text: text.to_string() }
}

fn calls() -> Vec<HierarchyCall> {
    vec![
        HierarchyCall {
            target: loc("src/b.rs", 10, 1, "bar"),
            callsites: vec![loc("src/b.rs", 12, 5, "    foo();\n"), loc("src/b.rs", 14, 5, "foo()\r\n")],
        },
        HierarchyCall { target: loc("src/c.rs", 1, 1, "baz"), callsites: vec![loc("src/c.rs", 2, 1, "foo()")] },
    ]
}

#[test]
fn call_hierarchy_listing_of_callers() {
    let listing = call_hierarchy_listing(&loc("src/a.rs", 3, 4, "foo"), true, &calls());
    assert_eq!(
        listing,
        "src/a.rs:3:4: foo - list of callers\n  src/b.rs:10:1: bar\n    src/b.rs:12:5:     foo();\n    src/b.rs:14:5: foo()\n  src/c.rs:1:1: baz\n    src/c.rs:2:1: foo()\n"
    );
}

#[test]
fn call_hierarchy_command_of_callees() {
    let command = format_call_hierarchy_calls("/root", &loc("a.rs", 1, 1, "main"), false, &vec![]);
    assert_eq!(command, "lsp-show-outgoing-calls '/root' 'a.rs:1:1: main - list of callees\n'");
}
