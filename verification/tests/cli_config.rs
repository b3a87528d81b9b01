use mcp_cli::cli::{is_http_url, parse_headers, resolve_bearer_token, BearerTokenSource, Cli};
use mcp_cli::transport::TransportConfig;

fn strings(items: &[&str]) -> Vec<String> {
    items.iter().map(|s| s.to_string()).collect()
}

/// The command line with `target` and no options.
fn cli(target: &[&str]) -> Cli {
    Cli {
        debug: false,
        json: false,
        history: None,
        no_color: false,
        headers: Vec::new(),
        bearer_token: None,
        bearer_token_env: None,
        bearer_token_file: None,
        bearer_token_prompt: false,
        target: strings(target),
    }
}

fn no_env(_: &str) -> Option<String> {
    None
}

fn no_file(_: &str) -> Option<String> {
    None
}

fn no_prompt() -> Result<String, String> {
    panic!("prompt should not be called in this test")
}

#[test]
fn parses_stdio_transport() {
    let cli = cli(&["coral", "mcp-stdio"]);
    assert_eq!(
        cli.transport_config_with_resolvers(no_env, no_file, no_prompt).unwrap(),
        TransportConfig::Stdio {
            command: "coral".to_string(),
            args: vec!["mcp-stdio".to_string()]
        }
    );
}

#[test]
fn parses_http_transport_from_http_url_target() {
    let mut cli = cli(&["http://localhost:8000/mcp"]);
    cli.headers = strings(&["X-Test=yes"]);
    cli.bearer_token_env = Some("MCP_TEST_TOKEN".to_string());
    assert_eq!(
        cli.transport_config_with_resolvers(
            |name: &str| match name {
                "MCP_TEST_TOKEN" => Some("secret".to_string()),
                _ => None,
            },
            no_file,
            no_prompt
        )
        .unwrap(),
        TransportConfig::StreamableHttp {
            url: "http://localhost:8000/mcp".to_string(),
            headers: vec![("X-Test".to_string(), "yes".to_string())],
            bearer_token: Some("secret".to_string())
        }
    );
}

#[test]
fn parses_http_transport_from_https_url_target() {
    let cli = cli(&["https://example.com/mcp"]);
    assert_eq!(
        cli.transport_config_with_resolvers(no_env, no_file, no_prompt).unwrap(),
        TransportConfig::StreamableHttp {
            url: "https://example.com/mcp".to_string(),
            headers: Vec::new(),
            bearer_token: None
        }
    );
}

#[test]
fn rejects_extra_args_after_http_url() {
    let cli = cli(&["http://localhost:8000/mcp", "extra"]);
    let err = cli.transport_config_with_resolvers(no_env, no_file, no_prompt).unwrap_err();
    assert_eq!(
        err.to_string(),
        "extra positional arguments are not valid when TARGET is an HTTP URL"
    );
}

#[test]
fn rejects_http_options_for_stdio() {
    let mut cli = cli(&["coral"]);
    cli.headers = strings(&["X-Test=yes"]);
    let err = cli.transport_config_with_resolvers(no_env, no_file, no_prompt).unwrap_err();
    assert_eq!(
        err.to_string(),
        "--header and bearer token options require an http:// or https:// TARGET"
    );
}

#[test]
fn reads_bearer_token_from_file() {
    let mut cli = cli(&["https://example.com/mcp"]);
    cli.bearer_token_file = Some("/tmp/mcp-cli-token.txt".to_string());
    let config = cli
        .transport_config_with_resolvers(
            no_env,
            |path: &str| {
                assert_eq!(path, "/tmp/mcp-cli-token.txt");
                Some("secret\n".to_string())
            },
            no_prompt,
        )
        .unwrap();
    assert_eq!(
        config,
        TransportConfig::StreamableHttp {
            url: "https://example.com/mcp".to_string(),
            headers: Vec::new(),
            bearer_token: Some("secret".to_string())
        }
    );
}

#[test]
fn reads_bearer_token_from_prompt() {
    let mut cli = cli(&["https://example.com/mcp"]);
    cli.bearer_token_prompt = true;
    let config = cli
        .transport_config_with_resolvers(no_env, no_file, || Ok("secret\n".to_string()))
        .unwrap();
    assert_eq!(
        config,
        TransportConfig::StreamableHttp {
            url: "https://example.com/mcp".to_string(),
            headers: Vec::new(),
            bearer_token: Some("secret".to_string())
        }
    );
}

#[test]
fn rejects_multiple_bearer_token_sources() {
    let mut cli = cli(&["https://example.com/mcp"]);
    cli.bearer_token_env = Some("MCP_TEST_TOKEN".to_string());
    cli.bearer_token_prompt = true;
    let err = cli.transport_config_with_resolvers(no_env, no_file, no_prompt).unwrap_err();
    assert_eq!(
        err.to_string(),
        "provide only one bearer token source: --bearer-token-env, --bearer-token-file, or --bearer-token-prompt"
    );
}

#[test]
fn rejects_missing_env_bearer_token() {
    let mut cli = cli(&["https://example.com/mcp"]);
    cli.bearer_token_env = Some("MCP_TEST_TOKEN".to_string());
    let err = cli.transport_config_with_resolvers(no_env, no_file, no_prompt).unwrap_err();
    assert_eq!(
        err.to_string(),
        "failed to read bearer token environment variable MCP_TEST_TOKEN"
    );
}

#[test]
fn rejects_empty_env_bearer_token() {
    let mut cli = cli(&["https://example.com/mcp"]);
    cli.bearer_token_env = Some("MCP_TEST_TOKEN".to_string());
    assert!(cli
        .transport_config_with_resolvers(|_: &str| Some(" \n".to_string()), no_file, no_prompt)
        .is_err());
}

#[test]
fn rejects_empty_file_bearer_token() {
    let mut cli = cli(&["https://example.com/mcp"]);
    cli.bearer_token_file = Some("/tmp/mcp-cli-empty-token.txt".to_string());
    let result =
        cli.transport_config_with_resolvers(no_env, |_: &str| Some("\n".to_string()), no_prompt);
    assert_eq!(
        result.unwrap_err().to_string(),
        "bearer token source resolved to an empty token"
    );
}

#[test]
fn supports_stdio_command_args_after_separator() {
    let cli = cli(&["server", "--server-flag"]);
    assert_eq!(
        cli.transport_config_with_resolvers(no_env, no_file, no_prompt).unwrap(),
        TransportConfig::Stdio {
            command: "server".to_string(),
            args: vec!["--server-flag".to_string()]
        }
    );
}

#[test]
fn missing_target_is_reported() {
    let cli = cli(&[]);
    let err = cli.transport_config_with_resolvers(no_env, no_file, no_prompt).unwrap_err();
    assert_eq!(err.to_string(), "missing MCP server target");
}

#[test]
fn header_without_equals_is_reported_quoted() {
    let err = parse_headers(&strings(&["X-Test"])).unwrap_err();
    assert_eq!(
        err.to_string(),
        "invalid --header value \"X-Test\"; expected NAME=VALUE"
    );
}

#[test]
fn header_with_empty_name_is_refused() {
    let err = parse_headers(&strings(&["  =yes"])).unwrap_err();
    assert_eq!(err.to_string(), "header name cannot be empty");
}

#[test]
fn later_header_replaces_earlier_one_of_same_name() {
    let parsed = parse_headers(&strings(&[" A = 1 ", "B=2", "A=3=4"])).unwrap();
    assert_eq!(
        parsed,
        vec![
            ("A".to_string(), "3=4".to_string()),
            ("B".to_string(), "2".to_string())
        ]
    );
}

#[test]
fn http_urls_are_told_apart_from_commands() {
    assert!(is_http_url("http://localhost"));
    assert!(is_http_url("https://example.com/mcp"));
    assert!(!is_http_url("httpx://example.com"));
    assert!(!is_http_url("coral"));
    assert!(!is_http_url("HTTP://example.com"));
}

#[test]
fn prompt_failure_message_is_passed_on() {
    let token = resolve_bearer_token(
        &Some(BearerTokenSource::Prompt),
        no_env,
        no_file,
        || Err("failed to read bearer token".to_string()),
    );
    assert_eq!(token.unwrap_err().to_string(), "failed to read bearer token");
}

#[test]
fn file_failure_names_the_file() {
    let token = resolve_bearer_token(
        &Some(BearerTokenSource::File("/no/such/token".to_string())),
        no_env,
        no_file,
        no_prompt,
    );
    assert_eq!(
        token.unwrap_err().to_string(),
        "failed to read bearer token file: /no/such/token"
    );
}

#[test]
fn no_source_means_no_token() {
    let token = resolve_bearer_token(&None, no_env, no_file, no_prompt);
    assert_eq!(token.unwrap(), None);
}

#[test]
fn bearer_token_is_trimmed() {
    let mut cli = cli(&["https://example.com/mcp"]);
    cli.bearer_token_env = Some("T".to_string());
    let config = cli
        .transport_config_with_resolvers(|_: &str| Some("  tok en \t".to_string()), no_file, no_prompt)
        .unwrap();
    assert_eq!(
        config,
        TransportConfig::StreamableHttp {
            url: "https://example.com/mcp".to_string(),
            headers: Vec::new(),
            bearer_token: Some("tok en".to_string())
        }
    );
}

#[test]
fn bearer_token_from_the_command_line_is_used() {
    let mut cli = cli(&["https://example.com/mcp"]);
    cli.bearer_token = Some(" tok ".to_string());
    assert_eq!(
        cli.transport_config_with_resolvers(no_env, no_file, no_prompt).unwrap(),
        TransportConfig::StreamableHttp {
            url: "https://example.com/mcp".to_string(),
            headers: Vec::new(),
            bearer_token: Some("tok".to_string())
        }
    );
}

#[test]
fn bearer_token_counts_as_a_token_source() {
    let mut cli = cli(&["https://example.com/mcp"]);
    cli.bearer_token = Some("tok".to_string());
    cli.bearer_token_env = Some("MCP_TEST_TOKEN".to_string());
    assert!(cli.transport_config_with_resolvers(no_env, no_file, no_prompt).is_err());
    let mut stdio = self::cli(&["coral"]);
    stdio.bearer_token = Some("tok".to_string());
    assert_eq!(
        stdio.transport_config_with_resolvers(no_env, no_file, no_prompt).unwrap_err().to_string(),
        "--header and bearer token options require an http:// or https:// TARGET"
    );
}

#[test]
fn only_the_named_source_is_read() {
    let mut cli = cli(&["https://example.com/mcp"]);
    cli.bearer_token_prompt = true;
    let config = cli
        .transport_config_with_resolvers(
            |_: &str| -> Option<String> { panic!("the environment is not read") },
            |_: &str| -> Option<String> { panic!("no file is read") },
            || Ok("tok".to_string()),
        )
        .unwrap();
    assert_eq!(
        config,
        TransportConfig::StreamableHttp {
            url: "https://example.com/mcp".to_string(),
            headers: Vec::new(),
            bearer_token: Some("tok".to_string())
        }
    );
    let mut refused = self::cli(&["https://example.com/mcp", "extra"]);
    refused.bearer_token_prompt = true;
    assert!(refused.transport_config_with_resolvers(no_env, no_file, no_prompt).is_err());
}
