use mcp_cli::format::{schema_summary, Formatter};
use mcp_cli::json::Json;
use mcp_cli::mcp::{ContentItem, ResourceBody, ResourceInfo, ServerIntro, ToolCallResult, ToolInfo};
use mcp_cli::repl::help_text;

fn text(s: &str) -> Json {
    Json::Str(s.to_string())
}

fn object(entries: Vec<(&str, Json)>) -> Json {
    Json::Object(entries.into_iter().map(|(k, v)| (k.to_string(), v)).collect())
}

fn schema() -> Json {
    object(vec![
        (
            "properties",
            object(vec![
                ("limit", object(vec![("type", text("integer"))])),
                ("name", object(vec![("type", text("string"))])),
            ]),
        ),
        ("required", Json::Array(vec![text("name")])),
        ("type", text("object")),
    ])
}

fn tool(name: &str, description: Option<&str>, input_schema: Json) -> ToolInfo {
    ToolInfo {
        name: name.to_string(),
        description: description.map(|d| d.to_string()),
        input_schema,
        json: object(vec![("name", text(name))]),
    }
}

#[test]
fn summarizes_schema_properties() {
    assert_eq!(schema_summary(&schema()), "(limit?:integer, name:string)");
}

#[test]
fn schema_without_properties_has_no_summary() {
    assert_eq!(schema_summary(&object(vec![("type", text("object"))])), "");
    assert_eq!(schema_summary(&text("object")), "");
}

#[test]
fn schema_summary_takes_type_from_any_of() {
    let s = object(vec![(
        "properties",
        object(vec![
            (
                "x",
                object(vec![(
                    "anyOf",
                    Json::Array(vec![object(vec![]), object(vec![("type", text("number"))])]),
                )]),
            ),
            ("y", object(vec![])),
        ]),
    )]);
    assert_eq!(schema_summary(&s), "(x?:number, y?:value)");
}

#[test]
fn plain_styles_leave_text_alone() {
    let f = Formatter::new(false, false);
    assert_eq!(f.error("bad"), "bad");
    assert_eq!(f.accent("name"), "name");
    assert_eq!(f.label("label"), "label");
    assert_eq!(f.dim("dim"), "dim");
}

#[test]
fn colored_styles_wrap_text_in_ansi_codes() {
    let f = Formatter::new(true, false);
    assert_eq!(f.error("bad"), "\u{1b}[1;31mbad\u{1b}[0m");
    assert_eq!(f.accent("name"), "\u{1b}[1;36mname\u{1b}[0m");
    assert_eq!(f.label("label"), "\u{1b}[1;35mlabel\u{1b}[0m");
    assert_eq!(f.dim("dim"), "\u{1b}[2mdim\u{1b}[0m");
}

#[test]
fn lists_tools_in_padded_columns() {
    let f = Formatter::new(false, false);
    let tools = vec![
        tool("echo", Some("Echo a message"), schema()),
        tool("sum", None, object(vec![])),
    ];
    assert_eq!(
        f.tools(&tools),
        "echo  Echo a message (limit?:integer, name:string)\nsum    \n"
    );
}

#[test]
fn colored_tool_names_pad_by_visible_width() {
    let f = Formatter::new(true, false);
    let tools = vec![tool("ab", Some("d"), object(vec![]))];
    assert_eq!(
        f.tools(&tools),
        "\u{1b}[1;36mab\u{1b}[0m    d \u{1b}[2m\u{1b}[0m\n"
    );
}

#[test]
fn empty_tool_and_resource_lists_are_reported() {
    let f = Formatter::new(false, false);
    assert_eq!(f.tools(&[]), "No tools advertised by this server.\n");
    assert_eq!(f.resources(&[]), "No resources advertised by this server.\n");
}

#[test]
fn lists_resources_with_descriptions() {
    let f = Formatter::new(false, false);
    let resources = vec![
        ResourceInfo {
            uri: "file:///a.txt".to_string(),
            description: Some("first".to_string()),
            json: Json::Null,
        },
        ResourceInfo {
            uri: "x".to_string(),
            description: None,
            json: Json::Null,
        },
    ];
    assert_eq!(
        f.resources(&resources),
        "file:///a.txt  first\nx              \n"
    );
}

#[test]
fn json_mode_lists_tools_as_an_array() {
    let f = Formatter::new(false, true);
    let tools = vec![tool("echo", None, object(vec![]))];
    assert_eq!(f.tools(&tools), "[\n  {\n    \"name\": \"echo\"\n  }\n]");
}

#[test]
fn text_content_that_is_json_is_pretty_printed() {
    let f = Formatter::new(false, false);
    let result = ToolCallResult {
        is_error: None,
        structured_content: None,
        content: vec![ContentItem::Text("  {\"a\":1}".to_string())],
        json: Json::Null,
    };
    assert_eq!(f.tool_result(&result), "{\n  \"a\": 1\n}\n");
}

#[test]
fn text_content_that_only_looks_like_json_stays_as_it_is() {
    let f = Formatter::new(false, false);
    let result = ToolCallResult {
        is_error: None,
        structured_content: None,
        content: vec![ContentItem::Text("{not json".to_string())],
        json: Json::Null,
    };
    assert_eq!(f.tool_result(&result), "{not json\n");
}

#[test]
fn tool_result_shows_error_flag_structured_content_and_items() {
    let f = Formatter::new(false, false);
    let result = ToolCallResult {
        is_error: Some(true),
        structured_content: Some(object(vec![("ok", Json::Bool(false))])),
        content: vec![
            ContentItem::Text("hello".to_string()),
            ContentItem::Image("aGVsbG8=".to_string()),
            ContentItem::ResourceLink {
                uri: "file:///x".to_string(),
                mime_type: None,
            },
        ],
        json: Json::Null,
    };
    assert_eq!(
        f.tool_result(&result),
        "tool returned an error result\nstructured\n{\n  \"ok\": false\n}\ncontent[0]\nhello\ncontent[1]\nimage 8 bytes base64\ncontent[2]\nresource link file:///x \n"
    );
}

#[test]
fn empty_tool_result_is_reported() {
    let f = Formatter::new(false, false);
    let result = ToolCallResult {
        is_error: None,
        structured_content: None,
        content: Vec::new(),
        json: Json::Null,
    };
    assert_eq!(f.tool_result(&result), "(empty result)\n");
}

#[test]
fn json_mode_tool_result_is_its_json() {
    let f = Formatter::new(false, true);
    let result = ToolCallResult {
        is_error: None,
        structured_content: None,
        content: Vec::new(),
        json: object(vec![("content", Json::Array(Vec::new()))]),
    };
    assert_eq!(f.tool_result(&result), "{\n  \"content\": []\n}");
}

#[test]
fn resources_show_header_and_body() {
    let f = Formatter::new(false, false);
    let text_body = ResourceBody::Text {
        uri: "file:///a.txt".to_string(),
        mime_type: None,
        text: "first content".to_string(),
    };
    assert_eq!(f.resource(&text_body), "resource file:///a.txt text\nfirst content\n");
    let blob = ResourceBody::Blob {
        uri: "file:///b.bin".to_string(),
        mime_type: Some("application/octet-stream".to_string()),
        blob: "AAEC".to_string(),
    };
    assert_eq!(
        f.resource(&blob),
        "resource file:///b.bin application/octet-stream 4 bytes base64\n"
    );
}

fn intro() -> ServerIntro {
    ServerIntro {
        name: "fake".to_string(),
        version: "1.2.3".to_string(),
        server: object(vec![("name", text("fake")), ("version", text("1.2.3"))]),
        protocol_version: text("2025-06-18"),
        capabilities: object(vec![]),
        json: object(vec![("protocolVersion", text("2025-06-18"))]),
    }
}

#[test]
fn server_intro_names_server_protocol_and_tool_count() {
    let f = Formatter::new(false, false);
    assert_eq!(
        f.server_intro(&intro(), 3),
        "connected fake v1.2.3\nprotocol \"2025-06-18\"\ntools 3\n"
    );
}

#[test]
fn json_server_intro_is_an_object_with_sorted_keys() {
    let f = Formatter::new(false, true);
    assert_eq!(
        f.server_intro(&intro(), 12),
        "{\n  \"capabilities\": {},\n  \"protocolVersion\": \"2025-06-18\",\n  \"server\": {\n    \"name\": \"fake\",\n    \"version\": \"1.2.3\"\n  },\n  \"toolCount\": 12\n}"
    );
}

#[test]
fn server_info_is_the_whole_initialize_result() {
    let f = Formatter::new(true, false);
    assert_eq!(f.server_info(&intro()), "{\n  \"protocolVersion\": \"2025-06-18\"\n}");
}

#[test]
fn help_lists_commands_sorted() {
    let help = help_text(Formatter::new(false, false));
    assert!(help.starts_with("Commands:\n"));
    assert!(help.ends_with("\n"));
    let lines: Vec<&str> = help.lines().skip(1).collect();
    assert_eq!(lines.len(), 10);
    let mut sorted = lines.clone();
    sorted.sort();
    assert_eq!(lines, sorted);
    assert_eq!(lines[0], format!("{:30} {}", "help, ?", "Show this help"));
    assert_eq!(lines[2], format!("{:30} {}", "quit, exit", "Close the session and exit the REPL."));
    assert_eq!(
        lines[8],
        "tool TOOL [key=value ... | --json '{...}' | @file.json] Call a tool with arguments specified as key=value pairs, raw JSON, or a JSON file."
    );
}

#[test]
fn json_help_describes_each_command() {
    let help = help_text(Formatter::new(false, true));
    assert!(help.starts_with("{\n  \"commands\": [\n    {\n      \"aliases\": [\n        \"?\"\n      ],\n      \"description\": \"Show this help\",\n      \"name\": \"help\",\n      \"usage_hint\": \"\"\n    },"));
    assert!(help.contains("\"usage_hint\": \"schema TOOL\""));
}
