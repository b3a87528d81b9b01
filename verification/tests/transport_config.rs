use mcp_cli::transport::{parse_http_headers, TransportConfig};

fn header(name: &str, value: &str) -> (String, String) {
    (name.to_string(), value.to_string())
}

#[test]
fn parses_http_headers() {
    let headers = vec![header("X-Test", "yes")];
    let parsed = parse_http_headers(&headers).unwrap();
    let name = http::HeaderName::from_static("x-test");
    let value = parsed
        .iter()
        .find(|h| h.name == name)
        .map(|h| h.value.clone())
        .unwrap();
    assert_eq!(value, "yes");
    assert_eq!(parsed[0].name_text, "x-test");
    assert_eq!(parsed[0].value_bytes, b"yes".to_vec());
}

#[test]
fn display_name_uses_http_url() {
    let config = TransportConfig::StreamableHttp {
        url: "http://localhost:8000/mcp".to_string(),
        headers: Vec::new(),
        bearer_token: None,
    };
    assert_eq!(config.display_name(), "http://localhost:8000/mcp");
}

#[test]
fn display_name_joins_command_and_args() {
    let config = TransportConfig::Stdio {
        command: "coral".to_string(),
        args: vec!["mcp-stdio".to_string(), "--verbose".to_string()],
    };
    assert_eq!(config.display_name(), "coral mcp-stdio --verbose");
    let bare = TransportConfig::Stdio {
        command: "server".to_string(),
        args: Vec::new(),
    };
    assert_eq!(bare.display_name(), "server");
}

#[test]
fn stdio_splits_program_from_args() {
    let config = TransportConfig::stdio(vec!["a".to_string(), "b".to_string(), "c".to_string()]).unwrap();
    assert_eq!(
        config,
        TransportConfig::Stdio {
            command: "a".to_string(),
            args: vec!["b".to_string(), "c".to_string()]
        }
    );
}

#[test]
fn stdio_without_command_is_refused() {
    let err = TransportConfig::stdio(Vec::new()).unwrap_err();
    assert_eq!(err.to_string(), "missing MCP server command");
}

#[test]
fn invalid_header_name_is_reported() {
    let err = parse_http_headers(&vec![header("Bad Name", "x")]).unwrap_err();
    assert_eq!(err.to_string(), "invalid HTTP header name: Bad Name");
}

#[test]
fn invalid_header_value_names_the_normalized_header() {
    let err = parse_http_headers(&vec![header("X-Ok", "fine"), header("X-Bad", "a\nb")]).unwrap_err();
    assert_eq!(err.to_string(), "invalid value for HTTP header: x-bad");
}

#[test]
fn every_valid_header_is_kept() {
    let parsed = parse_http_headers(&vec![header("A", "1"), header("b-c", "two words\t")]).unwrap();
    assert_eq!(parsed.len(), 2);
    assert_eq!(parsed[0].name.as_str(), "a");
    assert_eq!(parsed[0].name_text, "a");
    assert_eq!(parsed[1].name_text, "b-c");
    assert_eq!(parsed[1].value, "two words\t");
    assert_eq!(parsed[1].value_bytes, b"two words\t".to_vec());
    assert_eq!(parsed[0].value_bytes, b"1".to_vec());
}

#[test]
fn empty_header_name_is_refused_by_http() {
    let err = parse_http_headers(&vec![header("", "x")]).unwrap_err();
    assert_eq!(err.to_string(), "invalid HTTP header name: ");
}
