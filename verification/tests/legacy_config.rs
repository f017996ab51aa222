use kak_lsp::legacy_config::{translate_legacy_config, LanguageConfig, LegacyConfigError};

fn entry(id: &str, command: Option<&str>, rest: u32) -> (String, LanguageConfig<u32>) {
    (id.to_string(), LanguageConfig { command: command.map(|c| c.to_string()), rest })
}

#[test]
fn legacy_languages_become_server_entries() {
    let language = vec![entry("javascript", Some("typescript-language-server"), 1), entry("typescript", Some("typescript-language-server"), 2)];
    let servers = translate_legacy_config(language, vec![], false).unwrap();
    // Both languages are kept, though they share a server.
    assert_eq!(servers.len(), 2);
    assert_eq!(servers[0].0, "javascript:typescript-language-server");
    assert_eq!(servers[0].1.rest, 1);
    assert_eq!(servers[1].0, "typescript:typescript-language-server");
    assert_eq!(servers[1].1.rest, 2);
}

#[test]
fn legacy_tables_cannot_be_mixed() {
    let language = vec![entry("rust", Some("rust-analyzer"), 1)];
    assert_eq!(
        translate_legacy_config(language, vec![entry("rust-analyzer", Some("rust-analyzer"), 2)], false).err(),
        Some(LegacyConfigError::IncompatibleTables)
    );
    let language = vec![entry("rust", Some("rust-analyzer"), 1)];
    assert_eq!(translate_legacy_config(language, vec![], true).err(), Some(LegacyConfigError::IncompatibleTables));
    let language = vec![entry("rust", Some("rust-analyzer"), 1), entry("c", None, 2)];
    assert_eq!(translate_legacy_config(language, vec![], false).err(), Some(LegacyConfigError::MissingCommand));
}

#[test]
fn current_configurations_stay_as_they_are() {
    let servers = vec![entry("clangd", Some("clangd"), 3)];
    let out = translate_legacy_config(vec![], servers, true).unwrap();
    assert_eq!(out.len(), 1);
    assert_eq!(out[0].0, "clangd");
    assert!(translate_legacy_config::<u32>(vec![], vec![], false).unwrap().is_empty());
}
