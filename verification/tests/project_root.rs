use kak_lsp::project_root::{find_project_root, roots_by_env, ProjectRoot};

#[test]
fn the_first_root_holding_the_directory_is_chosen() {
    let roots = vec!["/other".to_string(), "/home/u/p".to_string(), "/home".to_string()];
    assert_eq!(roots_by_env(&roots, "/home/u/p/src"), Some("/home/u/p".to_string()));
    assert_eq!(roots_by_env(&roots, "/home/u/q"), Some("/home".to_string()));
    // A prefix by text that is not a prefix by components does not count.
    assert_eq!(roots_by_env(&roots, "/homework"), None);
    assert_eq!(roots_by_env(&vec![], "/home"), None);
}

#[test]
fn a_forced_root_wins_then_the_environment_then_markers() {
    let roots = vec!["/home/u/p".to_string()];
    assert!(matches!(find_project_root(Some("/forced"), &roots, "/home/u/p/src"), ProjectRoot::Forced(r) if r == "/forced"));
    assert!(matches!(find_project_root(None, &roots, "/home/u/p/src"), ProjectRoot::ByEnv(r) if r == "/home/u/p"));
    assert!(matches!(find_project_root(None, &roots, "/tmp"), ProjectRoot::ByMarker));
}
