use statica::env::{apply, parse_env_text, parse_env_value, EnvConfig};
use statica::table::StrMap;

#[test]
fn parse_env_text_basic() {
    let vars = parse_env_text(
        r#"
# comment
FORMS_CONTACT_ID=xyzabc
FORMS_ENDPOINT="https://formspree.io/f/{id}"
export EMPTY=
"#,
    );
    assert_eq!(vars.get("FORMS_CONTACT_ID").map(String::as_str), Some("xyzabc"));
    assert_eq!(
        vars.get("FORMS_ENDPOINT").map(String::as_str),
        Some("https://formspree.io/f/{id}")
    );
    assert_eq!(vars.get("EMPTY").map(String::as_str), Some(""));
}

#[test]
fn later_lines_replace_earlier_values() {
    let vars = parse_env_text("A=1\r\nB = 'two'\nA=3\n=skip\nnoequals\n");
    assert_eq!(vars.get("A").map(String::as_str), Some("3"));
    assert_eq!(vars.get("B").map(String::as_str), Some("two"));
    assert_eq!(vars.len(), 2);
}

#[test]
fn quotes_must_match() {
    assert_eq!(parse_env_value("\"x'"), "\"x'");
    assert_eq!(parse_env_value("'x'"), "x");
    assert_eq!(parse_env_value("\""), "\"");
}

#[test]
fn env_defaults_load_files() {
    let e = EnvConfig::default();
    assert!(e.load_files);
    assert_eq!(e.vars.len(), 0);
}

/// The value a variable ends with once the assignments run in order.
fn final_value(assignments: &[(String, String)], key: &str) -> Option<String> {
    assignments.iter().rev().find(|(k, _)| k == key).map(|(_, v)| v.clone())
}

#[test]
fn apply_respects_process_env_and_file_priority() {
    let mut vars = StrMap::new();
    vars.insert("STATICA_TEST_CONFIG", "from-toml");
    let cfg = EnvConfig { load_files: true, vars };
    let present = vec!["STATICA_TEST_KEEP".to_string()];
    let dot_env = "STATICA_TEST_CONFIG=from-config\nSTATICA_TEST_DOTENV=from-dotenv\nSTATICA_TEST_KEEP=from-file\n";
    let dev_vars = "STATICA_TEST_DOTENV=from-devvars\nSTATICA_TEST_DEVVARS=from-devvars\n";
    let set = apply(&cfg, &present, Some(dot_env), Some(dev_vars));

    assert_eq!(final_value(&set, "STATICA_TEST_KEEP"), None);
    assert_eq!(final_value(&set, "STATICA_TEST_CONFIG").as_deref(), Some("from-config"));
    assert_eq!(final_value(&set, "STATICA_TEST_DOTENV").as_deref(), Some("from-devvars"));
    assert_eq!(final_value(&set, "STATICA_TEST_DEVVARS").as_deref(), Some("from-devvars"));
}

#[test]
fn load_files_false_skips_dotenv() {
    let cfg = EnvConfig { load_files: false, vars: StrMap::new() };
    let set = apply(&cfg, &[], Some("STATICA_TEST_SKIP_FILE=from-dotenv\n"), None);
    assert!(set.is_empty());
}

#[test]
fn apply_sets_inline_vars_in_order_then_files() {
    let mut vars = StrMap::new();
    vars.insert("A", "1");
    vars.insert("B", "2");
    let cfg = EnvConfig { load_files: true, vars };
    let set = apply(&cfg, &["B".to_string()], None, Some("C=3"));
    assert_eq!(set, vec![("A".to_string(), "1".to_string()), ("C".to_string(), "3".to_string())]);
}
