use mcp_cli::json::Json;
use mcp_cli::mcp::{ResourceInfo, ToolInfo};
use mcp_cli::repl::{
    completion_start, cursor_prefix, parse_arguments, parse_command, schema_arg_names, CompletionState,
    InspectorCompleter, ReplCommand,
};

fn no_file(_: &str) -> Option<String> {
    None
}

fn text(s: &str) -> Json {
    Json::Str(s.to_string())
}

fn number(s: &str) -> Json {
    Json::Number(s.to_string())
}

fn object(entries: Vec<(&str, Json)>) -> Json {
    Json::Object(entries.into_iter().map(|(k, v)| (k.to_string(), v)).collect())
}

fn words(items: &[&str]) -> Vec<String> {
    items.iter().map(|s| s.to_string()).collect()
}

#[test]
fn parses_key_value_arguments() {
    let args = parse_arguments(&words(&["name=foo", "limit=3", "nested.flag=true"]), no_file).unwrap();
    assert_eq!(
        args,
        object(vec![
            ("limit", number("3")),
            ("name", text("foo")),
            ("nested", object(vec![("flag", Json::Bool(true))])),
        ])
    );
}

#[test]
fn parses_json_tool_command() {
    let command = parse_command(r#"tool lookup --json '{"q":"rust"}'"#, no_file).unwrap();
    assert_eq!(
        command,
        ReplCommand::Tool {
            name: "lookup".to_string(),
            arguments: object(vec![("q", text("rust"))])
        }
    );
}

#[test]
fn parses_raw_command() {
    let command = parse_command(r#"raw tools/list '{"cursor":null}'"#, no_file).unwrap();
    assert_eq!(
        command,
        ReplCommand::Raw {
            method: "tools/list".to_string(),
            params: Some(object(vec![("cursor", Json::Null)]))
        }
    );
}

#[test]
fn scalars_become_json_values_where_they_parse() {
    let args = parse_arguments(
        &words(&["enabled=true", "off=false", "missing=null", "count=3", "ratio=1.5", "word=rust", "list=[1,2]", "broken={x"]),
        no_file,
    )
    .unwrap();
    assert_eq!(
        args,
        object(vec![
            ("broken", text("{x")),
            ("count", number("3")),
            ("enabled", Json::Bool(true)),
            ("list", Json::Array(vec![number("1"), number("2")])),
            ("missing", Json::Null),
            ("off", Json::Bool(false)),
            ("ratio", number("1.5")),
            ("word", text("rust")),
        ])
    );
}

#[test]
fn dotted_keys_nest_and_later_values_win() {
    let args = parse_arguments(&words(&["user.name=simon", "user.active=true", "user.name=ada"]), no_file).unwrap();
    assert_eq!(
        args,
        object(vec![(
            "user",
            object(vec![("active", Json::Bool(true)), ("name", text("ada"))])
        )])
    );
}

#[test]
fn nesting_through_a_value_is_refused() {
    let err = parse_arguments(&words(&["a=1", "a.b=2"]), no_file).unwrap_err();
    assert_eq!(err.to_string(), "cannot assign nested key through non-object: a");
}

#[test]
fn dotted_key_with_empty_part_is_refused() {
    let err = parse_arguments(&words(&["a..b=1"]), no_file).unwrap_err();
    assert_eq!(err.to_string(), "invalid dotted key: a..b");
}

#[test]
fn argument_errors_are_reported() {
    assert_eq!(
        parse_arguments(&words(&["novalue"]), no_file).unwrap_err().to_string(),
        "expected key=value argument, got novalue"
    );
    assert_eq!(
        parse_arguments(&words(&["=1"]), no_file).unwrap_err().to_string(),
        "argument key cannot be empty"
    );
    assert_eq!(
        parse_arguments(&words(&["a=1", "@file.json"]), no_file).unwrap_err().to_string(),
        "@file must be the only tool argument"
    );
    assert_eq!(
        parse_arguments(&words(&["--json"]), no_file).unwrap_err().to_string(),
        "usage: tool TOOL --json '{...}'"
    );
    assert_eq!(
        parse_arguments(&words(&["--json", "{}", "{}"]), no_file).unwrap_err().to_string(),
        "--json accepts exactly one JSON object argument"
    );
}

#[test]
fn json_arguments_must_be_an_object() {
    let err = parse_arguments(&words(&["--json", "[1]"]), no_file).unwrap_err();
    assert_eq!(err.to_string(), "expected a JSON object, got [1]");
}

#[test]
fn arguments_file_is_read_and_parsed() {
    let args = parse_arguments(&words(&["@args.json"]), |path: &str| {
        assert_eq!(path, "args.json");
        Some("{\"name\": \"demo\"}".to_string())
    })
    .unwrap();
    assert_eq!(args, object(vec![("name", text("demo"))]));
    let err = parse_arguments(&words(&["@missing.json"]), no_file).unwrap_err();
    assert_eq!(err.to_string(), "failed to read JSON argument file: missing.json");
}

#[test]
fn no_arguments_are_an_empty_object() {
    assert_eq!(parse_arguments(&[], no_file).unwrap(), Json::Object(Vec::new()));
}

#[test]
fn malformed_json_is_a_friendly_parse_error() {
    let error = mcp_cli::shell::parse_command("tool echo --json '{bad json}'", no_file).unwrap_err();
    assert!(error.to_string().contains("key must be a string"));
}

#[test]
fn unknown_shell_command_is_reported() {
    let error = mcp_cli::shell::parse_command("wat", no_file).unwrap_err();
    assert!(error.to_string().contains("unknown command"));
}

#[test]
fn simple_commands_and_aliases_parse() {
    assert_eq!(parse_command("help", no_file).unwrap(), ReplCommand::Help);
    assert_eq!(parse_command("?", no_file).unwrap(), ReplCommand::Help);
    assert_eq!(parse_command("info", no_file).unwrap(), ReplCommand::Info);
    assert_eq!(parse_command("tools", no_file).unwrap(), ReplCommand::Tools);
    assert_eq!(parse_command("resources", no_file).unwrap(), ReplCommand::Resources);
    assert_eq!(parse_command("reload", no_file).unwrap(), ReplCommand::Reload);
    assert_eq!(parse_command("quit", no_file).unwrap(), ReplCommand::Quit);
    assert_eq!(parse_command("exit", no_file).unwrap(), ReplCommand::Quit);
    assert_eq!(
        parse_command("schema echo", no_file).unwrap(),
        ReplCommand::Schema { tool: "echo".to_string() }
    );
    assert_eq!(
        parse_command("resource 'file:///a b.txt'", no_file).unwrap(),
        ReplCommand::Resource { uri: "file:///a b.txt".to_string() }
    );
}

#[test]
fn command_usage_errors_are_reported() {
    assert_eq!(parse_command("schema", no_file).unwrap_err().to_string(), "usage: schema TOOL");
    assert_eq!(
        parse_command("resource a b", no_file).unwrap_err().to_string(),
        "usage: resource RESOURCE"
    );
    assert_eq!(
        parse_command("tool", no_file).unwrap_err().to_string(),
        "usage: tool TOOL [key=value ... | --json '{...}' | @file.json]"
    );
    assert_eq!(parse_command("raw", no_file).unwrap_err().to_string(), "usage: raw METHOD [JSON]");
    assert_eq!(parse_command("   ", no_file).unwrap_err().to_string(), "empty command");
    assert_eq!(
        parse_command("tool 'unclosed", no_file).unwrap_err().to_string(),
        "failed to parse command line"
    );
}

#[test]
fn raw_params_join_words_and_must_parse() {
    assert_eq!(
        parse_command("raw ping", no_file).unwrap(),
        ReplCommand::Raw { method: "ping".to_string(), params: None }
    );
    assert_eq!(
        parse_command("raw m [1, 2]", no_file).unwrap(),
        ReplCommand::Raw {
            method: "m".to_string(),
            params: Some(Json::Array(vec![number("1"), number("2")]))
        }
    );
    assert_eq!(
        parse_command("raw m nope", no_file).unwrap_err().to_string(),
        "raw params must be valid JSON"
    );
}

fn tool(name: &str, props: Vec<&str>) -> ToolInfo {
    let properties = Json::Object(
        props.into_iter().map(|p| (p.to_string(), object(vec![("type", text("string"))]))).collect(),
    );
    ToolInfo {
        name: name.to_string(),
        description: None,
        input_schema: object(vec![("properties", properties)]),
        json: Json::Null,
    }
}

fn resource(uri: &str) -> ResourceInfo {
    ResourceInfo { uri: uri.to_string(), description: None, json: Json::Null }
}

fn completer() -> InspectorCompleter {
    let tools = vec![tool("sum", vec!["b", "a"]), tool("echo", vec!["message"])];
    let resources = vec![resource("file:///z.txt"), resource("file:///a.txt")];
    InspectorCompleter::new(CompletionState::from_mcp_primitives(&tools, &resources))
}

#[test]
fn completes_command_names() {
    let c = completer();
    assert_eq!(
        c.suggestions_for(""),
        words(&["help", "info", "tools", "resources", "resource", "schema", "tool", "raw", "reload", "quit"])
    );
    assert_eq!(c.suggestions_for("to"), words(&["tools", "tool"]));
    assert_eq!(c.suggestions_for("re"), words(&["resources", "resource", "reload"]));
    assert!(c.suggestions_for("help ").is_empty());
}

#[test]
fn completes_tool_names_sorted() {
    let c = completer();
    assert_eq!(c.suggestions_for("tool "), words(&["echo", "sum"]));
    assert_eq!(c.suggestions_for("tool s"), words(&["sum"]));
    assert_eq!(c.suggestions_for("schema "), words(&["echo", "sum"]));
    assert_eq!(c.suggestions_for("schema e"), words(&["echo"]));
}

#[test]
fn completes_tool_arguments_with_equals() {
    let c = completer();
    assert_eq!(c.suggestions_for("tool sum "), words(&["a=", "b="]));
    assert_eq!(c.suggestions_for("tool sum b"), words(&["b="]));
    assert_eq!(c.suggestions_for("tool sum a=1 "), words(&["a=", "b="]));
    assert!(c.suggestions_for("tool missing ").is_empty());
}

#[test]
fn completes_resource_uris_sorted() {
    let c = completer();
    assert_eq!(c.suggestions_for("resource "), words(&["file:///a.txt", "file:///z.txt"]));
    assert_eq!(c.suggestions_for("resource file:///z"), words(&["file:///z.txt"]));
}

#[test]
fn completion_starts_after_last_whitespace() {
    assert_eq!(completion_start(""), 0);
    assert_eq!(completion_start("tool"), 0);
    assert_eq!(completion_start("tool ec"), 5);
    assert_eq!(completion_start("tool echo "), 10);
    assert_eq!(completion_start("é x"), 3);
}

#[test]
fn schema_argument_names_are_sorted_and_distinct() {
    let schema = object(vec![(
        "properties",
        object(vec![("b", Json::Null), ("a", Json::Null), ("b", Json::Null)]),
    )]);
    assert_eq!(schema_arg_names(&schema), words(&["a", "b"]));
    assert!(schema_arg_names(&text("x")).is_empty());
}

#[test]
fn cursor_prefix_cuts_at_the_cursor_between_characters() {
    assert_eq!(cursor_prefix("tool ec", 7), "tool ec");
    assert_eq!(cursor_prefix("tool echo", 6), "tool e");
    assert_eq!(cursor_prefix("ab c", 100), "ab c");
    assert_eq!(cursor_prefix("é x", 1), "");
    assert_eq!(cursor_prefix("é x", 2), "é");
    assert_eq!(cursor_prefix("", 3), "");
}
