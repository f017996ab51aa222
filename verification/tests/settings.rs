use kak_lsp::settings::{
    configuration, configured_section, explode_str_to_str_map, member, parse_setting_value, split_setting, SettingError,
    SettingValue,
};
use kak_lsp::types::server_name_for_lookup;

fn render(table: &[(String, SettingValue)]) -> String {
    let parts: Vec<String> = table
        .iter()
        .map(|(k, v)| match v {
            SettingValue::Table(t) => format!("{}:{{{}}}", k, render(t)),
            SettingValue::Value(j) => format!("{}:{}", k, j),
        })
        .collect();
    parts.join(",")
}

fn entries(es: &[&str]) -> Vec<String> {
    es.iter().map(|e| e.to_string()).collect()
}

#[test]
fn settings_split_at_the_first_equals_sign() {
    let (path, key, raw) = split_setting("a.b.c=x=y");
    assert_eq!(path, vec!["a".to_string(), "b".to_string()]);
    assert_eq!(key, "c");
    assert_eq!(raw, "x=y");
    let (path, key, raw) = split_setting("name=");
    assert!(path.is_empty());
    assert_eq!(key, "name");
    assert_eq!(raw, "");
    let (path, key, raw) = split_setting(".=1");
    assert_eq!(path, vec!["".to_string()]);
    assert_eq!(key, "");
    assert_eq!(raw, "1");
}

#[test]
fn flattened_settings_become_nested_tables() {
    let (table, errors) = explode_str_to_str_map(&entries(&["a.b=1", "a.c=\"x\"", "d=true"]));
    assert_eq!(render(&table), "a:{b:1,c:\"x\"},d:true");
    assert!(errors.is_empty());
    let (table, errors) = explode_str_to_str_map(&vec![]);
    assert!(table.is_empty() && errors.is_empty());
}

#[test]
fn a_setting_set_twice_keeps_the_last_value() {
    let (table, errors) = explode_str_to_str_map(&entries(&["x.a=1", "x.a=2"]));
    assert_eq!(render(&table), "x:{a:2}");
    assert_eq!(errors.len(), 1);
    assert_eq!(errors[0].0, 1);
    match &errors[0].1 {
        SettingError::Replaced(SettingValue::Value(old)) => assert_eq!(old.to_string(), "1"),
        _ => panic!("expected the old value"),
    }
}

#[test]
fn a_setting_inside_a_plain_value_is_not_set() {
    let (table, errors) = explode_str_to_str_map(&entries(&["a=1", "a.b=2", "c=3"]));
    assert_eq!(render(&table), "a:1,c:3");
    assert_eq!(errors.len(), 1);
    assert_eq!(errors[0].0, 1);
    match &errors[0].1 {
        SettingError::NotATable(name) => assert_eq!(name, "a"),
        _ => panic!("expected a value that is not a table"),
    }
}

#[test]
fn unreadable_values_are_left_out() {
    let (table, errors) = explode_str_to_str_map(&entries(&["a=oops oops", "b.c=1"]));
    assert_eq!(render(&table), "b:{c:1}");
    assert!(errors.is_empty());
    assert!(parse_setting_value("[1,").is_none());
}

#[test]
fn settings_read_back_what_was_set_inside_given_tables() {
    let (table, errors) = explode_str_to_str_map(&entries(&["a={b=1}", "a.c=2"]));
    assert_eq!(render(&table), "a:{b:1,c:2}");
    assert!(errors.is_empty());
    match parse_setting_value("{ x = { y = [1, 2] } }") {
        Some(SettingValue::Table(t)) => assert_eq!(render(&t), "x:{y:[1,2]}"),
        _ => panic!("expected a table"),
    }
}

#[test]
fn server_names_are_qualified_by_language_in_legacy_configs() {
    assert_eq!(server_name_for_lookup(true, "rust", "rust-analyzer"), "rust:rust-analyzer");
    assert_eq!(server_name_for_lookup(false, "rust", "rust-analyzer"), "rust-analyzer");
}

fn leaf(n: i64) -> SettingValue {
    SettingValue::Value(serde_json::Value::from(n))
}

fn sample() -> SettingValue {
    SettingValue::Table(vec![
        (
            "rust-analyzer".to_string(),
            SettingValue::Table(vec![("cargo".to_string(), leaf(1)), ("check".to_string(), leaf(2))]),
        ),
        ("".to_string(), leaf(3)),
    ])
}

fn shown(v: Option<&SettingValue>) -> String {
    match v {
        None => "null".to_string(),
        Some(SettingValue::Value(j)) => j.to_string(),
        Some(SettingValue::Table(t)) => format!("{{{}}}", render(t)),
    }
}

#[test]
fn members_are_found_by_name() {
    let s = sample();
    assert_eq!(shown(member(&s, "rust-analyzer")), "{cargo:1,check:2}");
    assert_eq!(shown(member(&s, "pylsp")), "null");
    assert_eq!(shown(member(&leaf(1), "x")), "null");
}

#[test]
fn servers_are_sent_their_section() {
    let s = sample();
    assert_eq!(shown(configured_section(Some(&s), Some("rust-analyzer"), None, false)), "{cargo:1,check:2}");
    assert_eq!(shown(configured_section(Some(&s), Some("rust-analyzer"), Some("check"), false)), "{cargo:1,check:2}");
    assert_eq!(shown(configured_section(Some(&s), Some("rust-analyzer"), Some("check"), true)), "2");
    assert_eq!(shown(configured_section(Some(&s), Some("rust-analyzer"), None, true)), "{cargo:1,check:2}");
    assert_eq!(shown(configured_section(Some(&s), None, None, false)), "null");
    assert_eq!(shown(configured_section(None, Some("rust-analyzer"), None, false)), "null");
}

#[test]
fn configuration_requests_are_answered_item_by_item() {
    let s = sample();
    let sections = vec![Some("rust-analyzer".to_string()), None, Some("".to_string()), Some("x".to_string())];
    let answers: Vec<String> = configuration(Some(&s), false, &sections).into_iter().map(shown).collect();
    assert_eq!(answers, vec!["{cargo:1,check:2}", "null", "3", "null"]);
    let answers: Vec<String> = configuration(Some(&s), true, &sections).into_iter().map(shown).collect();
    assert_eq!(answers[2], format!("{{{}}}", render(match &s {
        SettingValue::Table(t) => t,
        _ => unreachable!(),
    })));
    let answers: Vec<String> = configuration(None, true, &sections).into_iter().map(shown).collect();
    assert_eq!(answers, vec!["null", "null", "null", "null"]);
}
