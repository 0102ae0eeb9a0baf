use curlpit::artifacts::{
    create_preview, extension_for_content_type, format_size, resolve_save_path,
    sanitize_component,
};
use curlpit::config::{
    resolve_profile, resolve_relative, CurlpitConfig, CurlpitProfileConfig, EnvironmentBuilder,
};
use curlpit::envmap::{EnvMap, FileStore};
use curlpit::errors::Error;
use curlpit::importer::{import_curl_command, ImportOptions};
use curlpit::parser::{parse_request_contents, RequestBody, RequestDefinition, RequestTemplate};
use curlpit::template::render_export_template;
use curlpit::web::process_request;

fn env_of(pairs: &[(&str, &str)]) -> EnvMap {
    let mut m = EnvMap::new();
    for (k, v) in pairs {
        m.insert(k.to_string(), v.to_string());
    }
    m
}

fn profile(env: Option<&str>, vars: &[(&str, &str)]) -> CurlpitProfileConfig {
    CurlpitProfileConfig {
        env: env.map(|e| e.to_string()),
        variables: env_of(vars),
        vars: EnvMap::new(),
        response_output_dir: None,
    }
}

fn base_environment() -> curlpit::config::EnvironmentContext {
    curlpit::config::EnvironmentContext {
        base_dir: "/work".to_string(),
        config_dir: "/work".to_string(),
        template_variables: EnvMap::new(),
        initial_env: EnvMap::new(),
        env_files: Vec::new(),
        profile_name: None,
        response_output_dir: None,
    }
}

// Profile selection: with profiles a and b and default a, no request picks
// a, requesting b picks b, and an unknown name is refused.
#[test]
fn profile_selection_follows_request_then_default() {
    let config = CurlpitConfig {
        profiles: vec![
            ("a".to_string(), profile(None, &[])),
            ("b".to_string(), profile(None, &[])),
        ],
        variables: EnvMap::new(),
        vars: EnvMap::new(),
        default_profile: Some("a".to_string()),
        response_output_dir: None,
        import: None,
    };

    let picked = resolve_profile(&config, None).unwrap();
    assert_eq!(config.profiles[picked].0, "a");

    let picked = resolve_profile(&config, Some("b")).unwrap();
    assert_eq!(config.profiles[picked].0, "b");

    let err = resolve_profile(&config, Some("z")).unwrap_err();
    assert!(matches!(err, Error::UnknownProfile(_)));
    assert_eq!(err.message(), "Unknown profile: z");
}

#[test]
fn profile_selection_refuses_empty_configuration() {
    let config = CurlpitConfig {
        profiles: Vec::new(),
        variables: EnvMap::new(),
        vars: EnvMap::new(),
        default_profile: None,
        response_output_dir: None,
        import: None,
    };
    let err = resolve_profile(&config, None).unwrap_err();
    assert!(matches!(err, Error::NoProfilesDefined));
}

#[test]
fn environment_builder_layers_variables_and_env_file() {
    let config = CurlpitConfig {
        profiles: vec![(
            "dev".to_string(),
            profile(Some("dev.env"), &[("PROFILE", "dev"), ("TOKEN", "from-profile")]),
        )],
        variables: env_of(&[("GLOBAL", "global"), ("TOKEN", "from-root")]),
        vars: env_of(&[("ALIAS", "alias")]),
        default_profile: Some("dev".to_string()),
        response_output_dir: Some("root-out".to_string()),
        import: None,
    };
    let builder = EnvironmentBuilder::new(
        "/base".to_string(),
        "/config".to_string(),
        Some(config),
        None,
        None,
        None,
    );
    let mut files = FileStore::new();
    files.add("/config/dev.env".to_string(), b"TOKEN=from-env\nEXTRA=file\n".to_vec());

    let ctx = builder.build(&files).unwrap();
    assert_eq!(ctx.profile_name.as_deref(), Some("dev"));
    assert_eq!(ctx.template_variables.get("GLOBAL").unwrap(), "global");
    assert_eq!(ctx.template_variables.get("ALIAS").unwrap(), "alias");
    assert_eq!(ctx.template_variables.get("TOKEN").unwrap(), "from-profile");
    assert_eq!(ctx.initial_env.get("TOKEN").unwrap(), "from-env");
    assert_eq!(ctx.initial_env.get("EXTRA").unwrap(), "file");
    assert_eq!(ctx.env_files, vec!["/config/dev.env".to_string()]);
    assert_eq!(ctx.response_output_dir.as_deref(), Some("/config/root-out"));
}

#[test]
fn environment_builder_reports_missing_env_file() {
    let config = CurlpitConfig {
        profiles: vec![("dev".to_string(), profile(Some("dev.env"), &[]))],
        variables: EnvMap::new(),
        vars: EnvMap::new(),
        default_profile: None,
        response_output_dir: None,
        import: None,
    };
    let builder = EnvironmentBuilder::new(
        "/base".to_string(),
        "/config".to_string(),
        Some(config),
        None,
        None,
        None,
    );
    let err = builder.build(&FileStore::new()).unwrap_err();
    assert!(matches!(err, Error::FileReadFailure(ref p) if p == "/config/dev.env"));
}

#[test]
fn resolve_relative_keeps_absolute_paths() {
    assert_eq!(resolve_relative("/base", "sub/x"), "/base/sub/x");
    assert_eq!(resolve_relative("/base", "/abs/x"), "/abs/x");
}

#[test]
fn parse_request_uses_the_ambient_environment_as_fallback() {
    let environment = base_environment();
    let os_env = env_of(&[("HOST_FROM_OS", "https://example.org")]);
    let parsed = parse_request_contents(
        "GET {HOST_FROM_OS}/x\n",
        "/work",
        &environment,
        &os_env,
        &FileStore::new(),
    )
    .unwrap();
    assert_eq!(parsed.request.url, "https://example.org/x");
}

#[test]
fn parse_request_resolves_templates_and_env_directives() {
    let mut environment = base_environment();
    environment
        .initial_env
        .insert("API_BASE".to_string(), "https://example.com".to_string());

    let mut files = FileStore::new();
    files.add("/work/extra.env".to_string(), b"API_TOKEN=overridden\n".to_vec());

    let text = "# comment\n@env extra.env\nPOST {API_BASE}/widgets\nauthorization: Bearer {API_TOKEN}\nContent-Type: application/json\n\n{\"ok\":true}\n";
    let parsed = parse_request_contents(text, "/work", &environment, &EnvMap::new(), &files).unwrap();

    assert_eq!(parsed.request.method, "POST");
    assert_eq!(parsed.request.url, "https://example.com/widgets");
    assert_eq!(parsed.request.headers.len(), 2);
    assert_eq!(
        parsed.request.headers[0],
        ("authorization".to_string(), "Bearer overridden".to_string())
    );
    assert_eq!(parsed.request.body_bytes, Some(11));
    assert_eq!(parsed.request.body_text.as_deref(), Some("{\"ok\":true}"));
    assert_eq!(parsed.env_files, vec!["/work/extra.env".to_string()]);
}

#[test]
fn parse_request_reads_body_files_as_bytes() {
    let mut environment = base_environment();
    environment
        .initial_env
        .insert("PAYLOAD".to_string(), "payload.bin".to_string());
    let mut files = FileStore::new();
    files.add("/work/payload.bin".to_string(), vec![0, 1, 2]);

    let parsed = parse_request_contents(
        "POST https://example.com\n@body {PAYLOAD}\n",
        "/work",
        &environment,
        &EnvMap::new(),
        &files,
    )
    .unwrap();

    assert_eq!(parsed.request.method, "POST");
    assert!(matches!(
        parsed.request.body,
        Some(RequestBody::Bytes(ref bytes)) if bytes == &[0, 1, 2]
    ));
    assert_eq!(parsed.request.body_file.as_deref(), Some("/work/payload.bin"));
    assert_eq!(parsed.request.body_bytes, Some(3));
}

// A `@body` path with an unbound placeholder fails before any file is
// consulted: the same error comes back whatever the store holds.
#[test]
fn body_placeholder_failure_comes_before_file_access() {
    let environment = base_environment();
    let empty = FileStore::new();
    let text = "GET https://example.com\n@body {MISSING_VAR}\n";
    let err = parse_request_contents(text, "/work", &environment, &EnvMap::new(), &empty).unwrap_err();
    assert!(matches!(err, Error::MissingPlaceholderValue(ref k) if k == "MISSING_VAR"));

    let mut full = FileStore::new();
    full.add("/work/anything.bin".to_string(), vec![1]);
    let err2 = parse_request_contents(text, "/work", &environment, &EnvMap::new(), &full).unwrap_err();
    assert!(matches!(err2, Error::MissingPlaceholderValue(ref k) if k == "MISSING_VAR"));
}

// A header line without a colon fails the parse; no partial request comes
// back with it.
#[test]
fn header_line_without_colon_is_refused() {
    let environment = base_environment();
    let files = FileStore::new();
    let err = parse_request_contents(
        "GET https://example.com\nInvalidHeader\n",
        "/work",
        &environment,
        &EnvMap::new(),
        &files,
    )
    .unwrap_err();
    assert!(matches!(err, Error::InvalidHeaderLine(ref l) if l == "InvalidHeader"));
}

#[test]
fn parse_request_requires_a_request_line() {
    let environment = base_environment();
    let files = FileStore::new();
    let err = parse_request_contents(
        "# only a comment\n",
        "/work",
        &environment,
        &EnvMap::new(),
        &files,
    )
    .unwrap_err();
    assert!(matches!(err, Error::MissingRequestLine));
}

#[test]
fn env_directive_requires_an_argument() {
    let environment = base_environment();
    let files = FileStore::new();
    let err = parse_request_contents(
        "@env   \nGET x\n",
        "/work",
        &environment,
        &EnvMap::new(),
        &files,
    )
    .unwrap_err();
    assert!(matches!(err, Error::MissingDirectiveArgument(_)));
    assert_eq!(err.message(), "@env directive requires a file path");
}

// Round trip: importing a concrete curl command with matching variables
// yields parameterised text, and re-parsing that text under the same
// environment reproduces the original request.
#[test]
fn import_then_parse_round_trip() {
    let template_vars = env_of(&[("API_BASE", "https://api.example.com")]);
    let env_vars = env_of(&[("API_TOKEN", "TOK")]);
    let imported = import_curl_command(&ImportOptions {
        command:
            r#"curl -X POST https://api.example.com/items -H 'Authorization: Bearer TOK' -d '{"a":1}'"#
                .to_string(),
        template_variables: template_vars,
        env_variables: env_vars,
        include_headers: None,
        exclude_headers: None,
        append_headers: None,
    })
    .unwrap();

    assert!(imported.contents.contains("POST {API_BASE}/items"));
    assert!(imported.contents.contains("authorization: Bearer {API_TOKEN}"));
    assert!(imported.contents.contains("{\"a\":1}"));

    let mut environment = base_environment();
    environment
        .initial_env
        .insert("API_BASE".to_string(), "https://api.example.com".to_string());
    environment
        .initial_env
        .insert("API_TOKEN".to_string(), "TOK".to_string());
    let files = FileStore::new();
    let parsed = parse_request_contents(
        &imported.contents,
        "/work",
        &environment,
        &EnvMap::new(),
        &files,
    )
    .unwrap();

    assert_eq!(parsed.request.method, "POST");
    assert_eq!(parsed.request.url, "https://api.example.com/items");
    assert!(parsed
        .request
        .headers
        .iter()
        .any(|(n, v)| n == "authorization" && v == "Bearer TOK"));
    assert_eq!(parsed.request.body_text.as_deref(), Some("{\"a\":1}"));
}

#[test]
fn web_method_token_needs_a_url() {
    let env = EnvMap::new();
    let err = process_request("POST", &env, &EnvMap::new()).unwrap_err();
    assert_eq!(err.message(), "Missing request URL");
}

#[test]
fn body_file_must_be_readable() {
    let environment = base_environment();
    let files = FileStore::new();
    let err = parse_request_contents(
        "GET https://example.com
@body payload.bin
",
        "/work",
        &environment,
        &EnvMap::new(),
        &files,
    )
    .unwrap_err();
    assert!(matches!(err, Error::FileReadFailure(ref p) if p == "/work/payload.bin"));
}

#[test]
fn body_directive_requires_an_argument() {
    let environment = base_environment();
    let files = FileStore::new();
    let err = parse_request_contents(
        "GET https://example.com
@body  
",
        "/work",
        &environment,
        &EnvMap::new(),
        &files,
    )
    .unwrap_err();
    assert_eq!(err.message(), "@body directive requires a file path");
}

#[test]
fn interpolation_reports_each_key_once() {
    let env = env_of(&[("A_KEY", "v"), ("OTHER", "w")]);
    let details =
        curlpit::web::collect_interpolation("{A_KEY} {A_KEY} {MISSING} {OTHER}", &env);
    assert_eq!(details.len(), 2);
    assert_eq!(details[0].key, "A_KEY");
    assert_eq!(details[0].value, "v");
    assert_eq!(details[1].key, "OTHER");
}

#[test]
fn parse_simple_request() {
    let curl = r"GET {API_BASE}/users\nAuthorization: Bearer {TOKEN}\n\nHello {USER}";
    let env = env_of(&[
        ("API_BASE", "https://example.com"),
        ("TOKEN", "secret"),
        ("USER", "demo"),
    ]);
    let processed = process_request(curl, &env, &EnvMap::new()).unwrap();
    assert_eq!(processed.request.method, "GET");
    assert_eq!(processed.request.url, "https://example.com/users");
    assert_eq!(processed.request.headers.len(), 1);
    assert_eq!(processed.request.body.unwrap(), "Hello demo");
    assert_eq!(processed.interpolation.len(), 3);
}

#[test]
fn errors_on_missing_variable() {
    let curl = "GET {UNKNOWN}";
    let env = EnvMap::new();
    let err = process_request(curl, &env, &EnvMap::new()).unwrap_err();
    assert!(err.message().contains("Missing template variable"));
}

#[test]
fn web_refuses_env_directives() {
    let env = EnvMap::new();
    let err = process_request("@env x.env\nGET https://example.com", &env, &EnvMap::new()).unwrap_err();
    assert!(err.message().contains("not supported in the web playground"));
}

fn base_template() -> RequestTemplate {
    RequestTemplate {
        method: "get".to_string(),
        url: "https://example.com".to_string(),
        headers: vec![("accept".to_string(), "application/json".to_string())],
        body_text: None,
        body_file: None,
    }
}

#[test]
fn render_js_fetch_includes_headers() {
    let template = base_template();
    let rendered = render_export_template("js-fetch", &template).unwrap();

    assert!(rendered.contains("await fetch(\"https://example.com\""));
    assert!(rendered.contains("method: \"GET\""));
    assert!(rendered.contains("headers"));
}

#[test]
fn render_js_fetch_handles_body_variants() {
    let mut with_text = base_template();
    with_text.body_text = Some("{\"ok\":true}".to_string());
    let rendered = render_export_template("js-fetch", &with_text).unwrap();
    assert!(rendered.contains("body: \"{\\\"ok\\\":true}\""));

    let mut with_file = base_template();
    with_file.body_file = Some("payload.json".to_string());
    let rendered = render_export_template("js-fetch", &with_file).unwrap();
    assert!(rendered.contains("Original file: payload.json"));
}

#[test]
fn render_export_template_rejects_unknown_templates() {
    let template = base_template();
    let err = render_export_template("unknown", &template).unwrap_err();
    assert!(err.message().contains("Unknown export template"));
}

#[test]
fn request_template_from_definition_preserves_fields() {
    let definition = RequestDefinition {
        method: "POST".to_string(),
        url: "https://example.com".to_string(),
        headers: vec![("Content-Type".to_string(), "application/json".to_string())],
        body: Some(RequestBody::Text("{}".to_string())),
        body_bytes: Some(2),
        body_text: Some("{}".to_string()),
        body_file: Some("payload.json".to_string()),
    };

    let template = RequestTemplate::of_definition(&definition);
    assert_eq!(template.method, "POST");
    assert_eq!(template.url, "https://example.com");
    assert_eq!(template.headers.len(), 1);
    assert_eq!(template.body_text.as_deref(), Some("{}"));
    assert_eq!(template.body_file.as_deref(), Some("payload.json"));
}

#[test]
fn executor_sanitize_component_replaces_invalid_characters() {
    assert_eq!(sanitize_component("Hello World!"), "Hello-World");
    assert_eq!(sanitize_component("***"), "request");
    assert_eq!(sanitize_component("foo_bar"), "foo_bar");
}

#[test]
fn writer_sanitize_component_replaces_invalid_characters() {
    assert_eq!(sanitize_component("Hello World!"), "Hello-World");
    assert_eq!(sanitize_component("***"), "request");
    assert_eq!(sanitize_component("foo_bar"), "foo_bar");
}

#[test]
fn executor_extension_for_content_type_matches_common_types() {
    assert_eq!(extension_for_content_type(Some("application/json; charset=utf-8")), ".json");
    assert_eq!(extension_for_content_type(Some("text/html")), ".html");
    assert_eq!(extension_for_content_type(Some("application/unknown")), ".bin");
    assert_eq!(extension_for_content_type(None), ".bin");
}

#[test]
fn writer_extension_for_content_type_matches_common_types() {
    assert_eq!(extension_for_content_type(Some("application/json; charset=utf-8")), ".json");
    assert_eq!(extension_for_content_type(Some("text/html")), ".html");
    assert_eq!(extension_for_content_type(Some("application/unknown")), ".bin");
    assert_eq!(extension_for_content_type(None), ".bin");
}

#[test]
fn executor_create_preview_handles_binary_data() {
    let text = create_preview(&"hello".as_bytes().to_vec(), 10);
    assert_eq!(text, "hello");

    let binary = create_preview(&vec![0, 159, 146, 150], 4);
    assert_eq!(binary, "009f9296");
}

#[test]
fn writer_create_preview_handles_binary_data() {
    let text = create_preview(&"hello".as_bytes().to_vec(), 10);
    assert_eq!(text, "hello");

    let binary = create_preview(&vec![0, 159, 146, 150], 4);
    assert_eq!(binary, "009f9296");
}

#[test]
fn format_size_represents_ranges() {
    assert_eq!(format_size(512), "512 B");
    assert_eq!(format_size(2048), "2.0 KiB");
    assert_eq!(format_size(2 * 1024 * 1024), "2.0 MiB");
}

#[test]
fn format_size_boundaries() {
    assert_eq!(format_size(0), "0 B");
    assert_eq!(format_size(1024), "1024 B");
    assert_eq!(format_size(1536), "1.5 KiB");
}

#[test]
fn resolve_save_path_adds_extension_and_respects_directory_hint() {
    let path = resolve_save_path("/base", "requests/", "default.curl");
    assert_eq!(path, "/base/requests/default.curl");

    let explicit = resolve_save_path("/base", "output/test.req", "default.curl");
    assert_eq!(explicit, "/base/output/test.curl");
}
