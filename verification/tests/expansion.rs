use curlpit::envmap::{EnvMap, FileStore};
use curlpit::errors::Error;
use curlpit::placeholder::{expand_placeholders, is_start_char, is_valid_key};

fn env_of(pairs: &[(&str, &str)]) -> EnvMap {
    let mut m = EnvMap::new();
    for (k, v) in pairs {
        m.insert(k.to_string(), v.to_string());
    }
    m
}

#[test]
fn expand_placeholders_respects_escapes() {
    let env = env_of(&[("NAME", "curlpit")]);
    let rendered = expand_placeholders(r"Hello \{literal\} {NAME}!", &env, &EnvMap::new()).unwrap();
    assert_eq!(rendered, "Hello {literal} curlpit!");
}

#[test]
fn env_expand_placeholders_rejects_invalid_keys() {
    let env = EnvMap::new();
    let err = expand_placeholders("{BAD!}", &env, &EnvMap::new()).unwrap_err();
    assert!(err.message().contains("Invalid template variable"));
}

#[test]
fn env_expand_placeholders_reports_missing_values() {
    let env = EnvMap::new();
    let err = expand_placeholders("{MISSING}", &env, &EnvMap::new()).unwrap_err();
    assert!(err.message().contains("Missing template variable"));
}

#[test]
fn placeholders_expand_placeholders_rejects_invalid_keys() {
    let env = EnvMap::new();
    let err = expand_placeholders("{BAD!}", &env, &EnvMap::new()).unwrap_err();
    assert!(err.message().contains("Invalid template variable"));
}

#[test]
fn placeholders_expand_placeholders_reports_missing_values() {
    let env = EnvMap::new();
    let err = expand_placeholders("{MISSING}", &env, &EnvMap::new()).unwrap_err();
    assert!(err.message().contains("Missing template variable"));
}

#[test]
fn env_expand_placeholders_uses_environment_fallback() {
    let fallback = env_of(&[("FROM_OS", "value")]);
    let env = EnvMap::new();
    let rendered = expand_placeholders("token={FROM_OS}", &env, &fallback).unwrap();
    assert_eq!(rendered, "token=value");
}

#[test]
fn placeholders_expand_placeholders_uses_environment_fallback() {
    let fallback = env_of(&[("FROM_OS", "value")]);
    let env = EnvMap::new();
    let rendered = expand_placeholders("token={FROM_OS}", &env, &fallback).unwrap();
    assert_eq!(rendered, "token=value");
}

#[test]
fn env_map_wins_over_the_fallback() {
    let fallback = env_of(&[("K", "from-os")]);
    let env = env_of(&[("K", "from-map")]);
    assert_eq!(expand_placeholders("{K}", &env, &fallback).unwrap(), "from-map");
    let missing = expand_placeholders("{OTHER}", &env, &fallback).unwrap_err();
    assert!(missing.message().contains("Missing template variable: OTHER"));
}

#[test]
fn expand_substitutes_bound_keys() {
    let env = env_of(&[("API_BASE", "https://example.com")]);
    let rendered = expand_placeholders("{API_BASE}/items", &env, &EnvMap::new()).unwrap();
    assert_eq!(rendered, "https://example.com/items");
}

#[test]
fn expand_leaves_plain_text_unchanged() {
    let env = EnvMap::new();
    let rendered = expand_placeholders("nothing special here", &env, &EnvMap::new()).unwrap();
    assert_eq!(rendered, "nothing special here");
}

#[test]
fn expand_escaped_braces_for_any_environment() {
    let empty = EnvMap::new();
    assert_eq!(expand_placeholders(r"\{x\}", &empty, &EnvMap::new()).unwrap(), "{x}");
    let full = env_of(&[("x", "value")]);
    assert_eq!(expand_placeholders(r"\{x\}", &full, &EnvMap::new()).unwrap(), "{x}");
}

#[test]
fn expand_refuses_empty_placeholder() {
    let env = EnvMap::new();
    let err = expand_placeholders("{}", &env, &EnvMap::new()).unwrap_err();
    assert!(matches!(err, Error::EmptyPlaceholder));
}

#[test]
fn expand_leaves_digit_start_literal() {
    let env = EnvMap::new();
    assert_eq!(expand_placeholders("{123}", &env, &EnvMap::new()).unwrap(), "{123}");
}

#[test]
fn key_grammar_checks() {
    assert!(is_start_char('_'));
    assert!(is_start_char('A'));
    assert!(!is_start_char('1'));
    assert!(is_valid_key("GOOD_KEY.2-x"));
    assert!(!is_valid_key("1BAD"));
    assert!(!is_valid_key(""));
    assert!(!is_valid_key("SP ACE"));
}

#[test]
fn env_map_later_insert_overrides() {
    let mut m = EnvMap::new();
    m.insert("K".to_string(), "one".to_string());
    m.insert("K".to_string(), "two".to_string());
    assert_eq!(m.get("K").unwrap(), "two");
    assert_eq!(m.len(), 1);
    assert!(m.contains("K"));
    assert!(!m.contains("ABSENT"));
    assert!(m.get("ABSENT").is_none());
}

#[test]
fn load_env_directive_merges_and_records() {
    let mut env = EnvMap::new();
    env.insert("KEEP".to_string(), "old".to_string());
    env.insert("OVER".to_string(), "old".to_string());
    let mut files: Vec<String> = Vec::new();
    curlpit::envfile::load_env_directive(
        "some/dir/extra.env",
        "OVER=new\nFRESH=added\n# comment\n",
        &mut env,
        &mut files,
    )
    .unwrap();
    assert_eq!(env.get("KEEP").unwrap(), "old");
    assert_eq!(env.get("OVER").unwrap(), "new");
    assert_eq!(env.get("FRESH").unwrap(), "added");
    assert_eq!(files, vec!["some/dir/extra.env".to_string()]);
}

#[test]
fn file_store_keeps_first_bytes() {
    let mut files = FileStore::new();
    files.add("a.bin".to_string(), vec![1, 2, 3]);
    files.add("a.bin".to_string(), vec![9]);
    assert_eq!(files.get("a.bin").unwrap(), &vec![1, 2, 3]);
    assert!(files.get("b.bin").is_none());
}
