use curlpit::envmap::EnvMap;
use curlpit::headers::apply_header_rules;
use curlpit::importer::{
    import_curl_command, import_via_curl_parser, import_via_manual, normalize_command,
    ImportOptions,
};
use curlpit::substitute::{apply_substitutions, build_substitutions, suggest_file_name};

fn env_of(pairs: &[(&str, &str)]) -> EnvMap {
    let mut m = EnvMap::new();
    for (k, v) in pairs {
        m.insert(k.to_string(), v.to_string());
    }
    m
}

fn options(command: &str) -> ImportOptions {
    ImportOptions {
        command: command.to_string(),
        template_variables: env_of(&[("API_BASE", "https://api.example.com")]),
        env_variables: env_of(&[("API_TOKEN", "secret-token")]),
        include_headers: None,
        exclude_headers: None,
        append_headers: None,
    }
}

#[test]
fn import_via_curl_parser_emits_warnings_and_substitutions() {
    let command =
        "curl --insecure https://api.example.com/widgets -H 'Authorization: Bearer secret-token'";
    let result = import_via_curl_parser(&options(command)).unwrap();

    assert!(result.warnings.iter().any(|warning| warning.contains("--insecure")));
    assert!(result.contents.contains("GET {API_BASE}/widgets"));
    assert!(result.contents.contains("authorization: Bearer {API_TOKEN}"));
}

#[test]
fn import_via_curl_parser_applies_header_rules() {
    let include_list = vec!["Accept".to_string(), "X-Trace".to_string()];
    let exclude_list = vec!["Accept".to_string()];
    let mut append = EnvMap::new();
    append.insert("X-Trace".to_string(), "trace".to_string());

    let opts = ImportOptions {
        command: "curl https://api.example.com --header 'Accept: */*' --header 'X-Remove: yes'"
            .to_string(),
        template_variables: env_of(&[("API_BASE", "https://api.example.com")]),
        env_variables: env_of(&[("API_TOKEN", "secret-token")]),
        include_headers: Some(include_list),
        exclude_headers: Some(exclude_list),
        append_headers: Some(append),
    };

    let result = import_via_curl_parser(&opts).unwrap();
    assert!(!result.contents.contains("X-Remove"));
    assert!(!result.contents.contains("Accept: */*"));
    assert!(result.contents.contains("X-Trace: trace"));
}

#[test]
fn import_via_manual_handles_data_files_and_basic_auth() {
    let command = "curl --request PATCH https://api.example.com/items -H 'X-Test: value' --data '@/tmp/input.json' --data '@/tmp/other.json' --user user:pass";
    let result = import_via_manual(&options(command)).unwrap();

    assert_eq!(result.method, "PATCH");
    assert!(result.warnings.iter().any(|w| w.contains("Multiple @file bodies")));
    assert!(result.contents.contains("PATCH {API_BASE}/items"));
    assert!(result.contents.contains("Authorization: Basic user:pass"));
    assert!(result.contents.contains("X-Test: value"));
}

#[test]
fn header_rules_are_applied_to_manual_import() {
    let include_list = vec!["Accept".to_string(), "X-Custom".to_string()];
    let exclude_list = vec!["X-Custom".to_string()];
    let mut append = EnvMap::new();
    append.insert("X-Trace".to_string(), "trace-id".to_string());

    let opts = ImportOptions {
        command: "curl https://api.example.com --header 'Accept: */*' --header 'X-Custom: keep'"
            .to_string(),
        template_variables: env_of(&[("API_BASE", "https://api.example.com")]),
        env_variables: env_of(&[("API_TOKEN", "secret-token")]),
        include_headers: Some(include_list),
        exclude_headers: Some(exclude_list),
        append_headers: Some(append),
    };

    let result = import_via_manual(&opts).unwrap();
    assert!(result.contents.contains("Accept: */*"));
    assert!(!result.contents.contains("X-Custom"));
    assert!(result.contents.contains("X-Trace: trace-id"));
}

#[test]
fn import_curl_command_combines_errors_when_all_strategies_fail() {
    let empty = ImportOptions {
        command: "curl --data".to_string(),
        template_variables: EnvMap::new(),
        env_variables: EnvMap::new(),
        include_headers: None,
        exclude_headers: None,
        append_headers: None,
    };
    let err = import_curl_command(&empty).expect_err("invalid command should fail");
    let message = err.message();
    assert!(message.contains("Option '--data' missing value"));
    assert!(message.contains('\n'));
}

#[test]
fn import_curl_command_performs_substitutions() {
    let template_vars = env_of(&[("API_BASE", "https://api.example.com")]);
    let env_vars = env_of(&[("API_TOKEN", "secret-token")]);

    let result = import_curl_command(&ImportOptions {
        command: r#"curl -X POST https://api.example.com/widgets -H 'Authorization: Bearer secret-token' -H 'Content-Type: application/json' -d '{"ok":true}'"#.to_string(),
        template_variables: template_vars,
        env_variables: env_vars,
        include_headers: None,
        exclude_headers: None,
        append_headers: None,
    })
    .unwrap();

    assert!(result.contents.contains("POST {API_BASE}/widgets"));
    assert!(result.contents.contains("authorization: Bearer {API_TOKEN}"));
    assert!(result.contents.contains("{\"ok\":true}"));
}

#[test]
fn include_and_exclude_filters_headers() {
    let headers = vec![
        ("Accept".to_string(), "*/*".to_string()),
        ("User-Agent".to_string(), "curl/8".to_string()),
        ("X-Auth".to_string(), "token".to_string()),
    ];
    let include_list = vec!["Accept".to_string(), "X-Auth".to_string()];
    let exclude_list = vec!["X-Auth".to_string()];

    let result = apply_header_rules(headers, Some(&include_list), Some(&exclude_list), None);
    assert_eq!(result.len(), 1);
    assert_eq!(result[0].0, "Accept");
}

#[test]
fn append_headers_adds_missing_entries() {
    let headers = vec![("Accept".to_string(), "*/*".to_string())];
    let mut append = EnvMap::new();
    append.insert("X-Trace".to_string(), "abc".to_string());
    append.insert("Accept".to_string(), "application/json".to_string());

    let result = apply_header_rules(headers, None, None, Some(&append));
    assert_eq!(result.len(), 2);
    assert!(result.iter().any(|(n, v)| n == "X-Trace" && v == "abc"));
    assert!(result.iter().any(|(n, v)| n == "Accept" && v == "*/*"));
}

#[test]
fn header_rules_scenario_keeps_exactly_the_appended_trace() {
    let headers = vec![
        ("Accept".to_string(), "*/*".to_string()),
        ("X-Custom".to_string(), "v".to_string()),
    ];
    let include_list = vec!["Accept".to_string(), "X-Trace".to_string()];
    let exclude_list = vec!["Accept".to_string()];
    let mut append = EnvMap::new();
    append.insert("X-Trace".to_string(), "t".to_string());

    let result = apply_header_rules(headers, Some(&include_list), Some(&exclude_list), Some(&append));
    assert_eq!(result.len(), 1);
    assert_eq!(result[0].0, "X-Trace");
    assert_eq!(result[0].1, "t");
}

#[test]
fn substitutions_favor_longer_matches_first() {
    let template = env_of(&[("LONG", "abcdef"), ("SHORT", "abc")]);
    let substitutions = build_substitutions(&template, &EnvMap::new());

    let replaced = apply_substitutions("abcdef", &substitutions);
    assert_eq!(replaced, "{LONG}");
}

#[test]
fn suggest_file_name_produces_sanitized_output() {
    let name = suggest_file_name("POST", "https://api.example.com/a/b?c=d").unwrap();
    assert_eq!(name, "post-api-example-com-a-b.curl");
}

#[test]
fn suggest_file_name_needs_a_host() {
    assert!(suggest_file_name("GET", "not a url").is_none());
}

#[test]
fn normalize_command_merges_continuation_lines() {
    let input = "curl https://example.com \\\n  -H 'Accept: application/json'";
    let normalized = normalize_command(input);
    assert_eq!(normalized, "curl https://example.com    -H 'Accept: application/json'");
}

#[test]
fn manual_import_requires_a_url() {
    let err = import_via_manual(&options("curl -X GET")).unwrap_err();
    assert!(err.message().contains("Unable to determine request URL"));
}

#[test]
fn manual_import_requires_curl_itself() {
    let err = import_via_manual(&options("wget https://example.com")).unwrap_err();
    assert!(err.message().contains("Command must start with 'curl'"));
}

#[test]
fn colonless_header_falls_to_the_token_strategy() {
    let result =
        import_curl_command(&options("curl -H NoColon https://api.example.com/x")).unwrap();
    assert_eq!(result.method, "GET");
    assert!(result.warnings.iter().any(|w| w.contains("Unrecognised header: NoColon")));
    assert!(result.contents.contains("GET {API_BASE}/x"));

    let quoted =
        import_curl_command(&options("curl -H 'Also No Colon' https://api.example.com/x"))
            .unwrap();
    assert!(quoted.warnings.iter().any(|w| w.contains("Unrecognised header")));
}

#[test]
fn imported_text_starts_with_timestamp_comment() {
    let result = import_curl_command(&options("curl https://api.example.com/x")).unwrap();
    assert!(result.contents.starts_with("# Imported by curlpit on "));
    assert!(result.contents.ends_with("\n"));
}
