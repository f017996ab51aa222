use kak_lsp::text_sync::{
    accepts_change, compile_watchers, did_save_notice, event_file_changes, CompiledFileSystemWatcher, FileChangeType,
    FileSystemWatcher, GlobPattern, SaveOptions, WatchEventKind, WatchKind,
};

fn kind(create: bool, change: bool, delete: bool) -> WatchKind {
    WatchKind { create, change, delete }
}

#[test]
fn only_newer_versions_are_sent() {
    assert!(accepts_change(None, 1));
    assert!(!accepts_change(None, 0));
    assert!(accepts_change(Some(3), 4));
    assert!(!accepts_change(Some(4), 4));
    assert!(!accepts_change(Some(5), 4));
}

#[test]
fn saves_are_announced_as_servers_ask() {
    assert_eq!(did_save_notice(SaveOptions::NotAsked), None);
    assert_eq!(did_save_notice(SaveOptions::Supported(false)), None);
    assert_eq!(did_save_notice(SaveOptions::Supported(true)), Some(false));
    assert_eq!(did_save_notice(SaveOptions::Options { include_text: None }), Some(false));
    assert_eq!(did_save_notice(SaveOptions::Options { include_text: Some(true) }), Some(true));
}

#[test]
fn watchers_are_kept_when_their_patterns_compile() {
    let watchers = vec![
        FileSystemWatcher { glob_pattern: GlobPattern::Plain("**/*.rs".to_string()), kind: None },
        FileSystemWatcher { glob_pattern: GlobPattern::Plain("**/*.{rs,toml}".to_string()), kind: None },
        FileSystemWatcher {
            glob_pattern: GlobPattern::Relative { base_path: Some("/p".to_string()), pattern: "src/*.c".to_string() },
            kind: Some(kind(true, false, false)),
        },
        FileSystemWatcher {
            glob_pattern: GlobPattern::Relative { base_path: None, pattern: "*.c".to_string() },
            kind: None,
        },
        FileSystemWatcher { glob_pattern: GlobPattern::Plain("abc[".to_string()), kind: None },
    ];
    let kept = compile_watchers(&watchers);
    assert_eq!(kept.len(), 2);
    assert_eq!(kept[0].0, None);
    assert_eq!(kept[0].1.kind, kind(true, true, true));
    assert_eq!(kept[0].1.pattern, "**/*.rs");
    assert_eq!(kept[1].0, Some("/p".to_string()));
    assert_eq!(kept[1].1.kind, kind(true, false, false));
    assert_eq!(kept[1].1.pattern, "src/*.c");
}

#[test]
fn file_events_reach_the_watchers_that_ask_for_them() {
    let ws = vec![
        CompiledFileSystemWatcher { kind: kind(true, false, false), pattern: "**/*.rs".to_string() },
        CompiledFileSystemWatcher { kind: kind(true, true, true), pattern: "**/Cargo.toml".to_string() },
    ];
    let paths = vec!["/p/a.rs".to_string(), "/p/log".to_string(), "/p/Cargo.toml".to_string()];
    let mut changes = Vec::new();
    event_file_changes(&mut changes, Some("/p/log"), &ws, WatchEventKind::Create, &paths);
    assert_eq!(
        changes,
        vec![("/p/a.rs".to_string(), FileChangeType::Created), ("/p/Cargo.toml".to_string(), FileChangeType::Created)]
    );
    event_file_changes(&mut changes, None, &ws, WatchEventKind::Modify, &paths);
    assert_eq!(changes.len(), 3);
    assert_eq!(changes[2], ("/p/Cargo.toml".to_string(), FileChangeType::Changed));
    let mut none = Vec::new();
    event_file_changes(&mut none, None, &ws, WatchEventKind::Access, &paths);
    event_file_changes(&mut none, None, &ws, WatchEventKind::Remove, &vec!["/p/a.rs".to_string()]);
    assert!(none.is_empty());
}
