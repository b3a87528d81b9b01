use mcp_cli::format::Formatter;
use mcp_cli::json::Json;
use mcp_cli::mcp::{ClientNotification, PromptInfo, ResourceBody, ResourceInfo, ServerIntro, ToolInfo};
use mcp_cli::repl::ReplCommand;
use mcp_cli::session::{
    find_by_name, lists_to_fetch, object_from_value, prompt_arguments, refreshed_list,
    sorted_by_name_vec, tool_call_arguments, NotificationQueue,
};
use mcp_cli::shell::{
    after_step, next_action, LoopAction, ReadEvent,
    command_line, notification_line, plan, prompt_text, reload_message,
    show_resource, Step,
};

fn text(s: &str) -> Json {
    Json::Str(s.to_string())
}

fn object(entries: Vec<(&str, Json)>) -> Json {
    Json::Object(entries.into_iter().map(|(k, v)| (k.to_string(), v)).collect())
}

fn tool(name: &str, marker: &str) -> ToolInfo {
    ToolInfo {
        name: name.to_string(),
        description: Some(marker.to_string()),
        input_schema: object(vec![("type", text("object")), ("title", text(marker))]),
        json: Json::Null,
    }
}

#[test]
fn empty_object_arguments_are_none() {
    assert!(tool_call_arguments(Json::Object(Vec::new())).unwrap().is_none());
    let some = tool_call_arguments(object(vec![("a", Json::Null)])).unwrap().unwrap();
    assert_eq!(some, vec![("a".to_string(), Json::Null)]);
}

#[test]
fn non_object_tool_arguments_are_refused() {
    let err = tool_call_arguments(Json::Array(vec![Json::Bool(true)])).unwrap_err();
    assert_eq!(err, "tool arguments must be a JSON object, got [true]");
    let err = prompt_arguments(text("x")).unwrap_err();
    assert_eq!(err, "prompt arguments must be a JSON object, got \"x\"");
}

#[test]
fn object_from_value_refuses_other_values() {
    assert_eq!(object_from_value(object(vec![("k", Json::Null)])).unwrap().len(), 1);
    assert_eq!(object_from_value(Json::Null).unwrap_err(), "expected a JSON object, got null");
}

#[test]
fn lists_are_sorted_by_name_keeping_order_of_equal_names() {
    let tools = vec![tool("sum", "1"), tool("echo", "2"), tool("sum", "3"), tool("add", "4")];
    let sorted = sorted_by_name_vec(tools);
    let seen: Vec<(String, String)> = sorted
        .iter()
        .map(|t| (t.name.clone(), t.description.clone().unwrap()))
        .collect();
    assert_eq!(
        seen,
        vec![
            ("add".to_string(), "4".to_string()),
            ("echo".to_string(), "2".to_string()),
            ("sum".to_string(), "1".to_string()),
            ("sum".to_string(), "3".to_string()),
        ]
    );
}

#[test]
fn resources_sort_by_uri_and_prompts_by_name() {
    let resources = vec![
        ResourceInfo { uri: "file:///b".to_string(), description: None, json: Json::Null },
        ResourceInfo { uri: "file:///a".to_string(), description: None, json: Json::Null },
    ];
    let sorted = sorted_by_name_vec(resources);
    assert_eq!(sorted[0].uri, "file:///a");
    let prompts = vec![
        PromptInfo { name: "greet".to_string(), description: None, json: Json::Null },
        PromptInfo { name: "empty".to_string(), description: None, json: Json::Null },
    ];
    let sorted = sorted_by_name_vec(prompts);
    assert_eq!(sorted[0].name, "empty");
}

#[test]
fn finds_the_first_item_of_a_name() {
    let tools = vec![tool("a", "1"), tool("b", "2"), tool("b", "3")];
    assert_eq!(find_by_name(&tools, "b"), Some(1));
    assert_eq!(find_by_name(&tools, "c"), None);
}

#[test]
fn drained_notifications_come_oldest_first_and_only_once() {
    let mut queue = NotificationQueue::new();
    queue.push(ClientNotification::Progress(Json::Null));
    queue.push(ClientNotification::ElicitationDeclined("no".to_string()));
    let first = queue.drain();
    assert_eq!(first.len(), 2);
    assert!(matches!(first[0], ClientNotification::Progress(_)));
    assert!(matches!(first[1], ClientNotification::ElicitationDeclined(_)));
    assert!(queue.drain().is_empty());
}

#[test]
fn notifications_show_a_dimmed_tag() {
    let f = Formatter::new(false, false);
    let log = ClientNotification::Log { level: "Info".to_string(), data: text("started") };
    assert_eq!(notification_line(f, &log), "[Info] \"started\"");
    assert_eq!(notification_line(f, &ClientNotification::Progress(Json::Null)), "[progress] null");
    assert_eq!(
        notification_line(f, &ClientNotification::ElicitationDeclined("declined".to_string())),
        "[elicitation] declined"
    );
    let colored = Formatter::new(true, false);
    assert_eq!(
        notification_line(colored, &ClientNotification::Cancelled(Json::Null)),
        "\u{1b}[2m[cancelled]\u{1b}[0m null"
    );
}

#[test]
fn prompt_names_the_server() {
    assert_eq!(prompt_text(""), "mcp");
    assert_eq!(prompt_text("fake"), "mcp:fake");
}

#[test]
fn blank_lines_are_not_commands() {
    assert_eq!(command_line("  \t "), None);
    assert_eq!(command_line("  tools \n"), Some("tools".to_string()));
}

fn intro() -> ServerIntro {
    ServerIntro {
        name: "fake".to_string(),
        version: "1".to_string(),
        server: Json::Null,
        protocol_version: Json::Null,
        capabilities: Json::Null,
        json: object(vec![("instructions", text("fake test server"))]),
    }
}

#[test]
fn plan_shows_what_the_session_holds() {
    let f = Formatter::new(false, false);
    let tools = vec![tool("echo", "1")];
    match plan(f, ReplCommand::Info, Some(&intro()), &tools, &[]).unwrap() {
        Step::Show(t) => assert_eq!(t, "{\n  \"instructions\": \"fake test server\"\n}"),
        _ => panic!("info shows the server info"),
    }
    match plan(f, ReplCommand::Schema { tool: "echo".to_string() }, Some(&intro()), &tools, &[]).unwrap() {
        Step::Show(t) => assert_eq!(t, "{\n  \"title\": \"1\",\n  \"type\": \"object\"\n}"),
        _ => panic!("schema shows the schema"),
    }
    match plan(f, ReplCommand::Tools, Some(&intro()), &tools, &[]).unwrap() {
        Step::Show(t) => assert_eq!(t, "echo  1 \n"),
        _ => panic!("tools lists the tools"),
    }
}

#[test]
fn plan_reports_missing_server_info() {
    let f = Formatter::new(false, false);
    match plan(f, ReplCommand::Info, None, &[], &[]) {
        Err(e) => assert_eq!(e.to_string(), "server did not provide initialize info"),
        Ok(_) => panic!("there is no server info to show"),
    }
}

#[test]
fn plan_refuses_schema_of_unknown_tool() {
    let f = Formatter::new(false, false);
    let err = plan(f, ReplCommand::Schema { tool: "nope".to_string() }, Some(&intro()), &[], &[]);
    match err {
        Err(e) => assert_eq!(e.to_string(), "unknown tool: nope"),
        Ok(_) => panic!("an unknown tool has no schema"),
    }
}

#[test]
fn plan_sends_requests_for_server_commands() {
    let f = Formatter::new(false, false);
    assert!(matches!(
        plan(f, ReplCommand::Resource { uri: "u".to_string() }, Some(&intro()), &[], &[]),
        Ok(Step::ReadResource { .. })
    ));
    assert!(matches!(plan(f, ReplCommand::Reload, Some(&intro()), &[], &[]), Ok(Step::Reload)));
    assert!(matches!(plan(f, ReplCommand::Quit, Some(&intro()), &[], &[]), Ok(Step::Quit)));
    assert!(matches!(
        plan(
            f,
            ReplCommand::Tool { name: "echo".to_string(), arguments: Json::Object(Vec::new()) },
            Some(&intro()),
            &[],
            &[],
        ),
        Ok(Step::CallTool { .. })
    ));
    assert!(matches!(
        plan(f, ReplCommand::Raw { method: "m".to_string(), params: None }, Some(&intro()), &[], &[]),
        Ok(Step::Raw { .. })
    ));
}

#[test]
fn every_resource_content_is_shown() {
    let f = Formatter::new(false, false);
    let contents = vec![
        ResourceBody::Text { uri: "file:///pair.txt".to_string(), mime_type: None, text: "first content".to_string() },
        ResourceBody::Text {
            uri: "file:///pair.txt".to_string(),
            mime_type: Some("text/plain".to_string()),
            text: "second content".to_string(),
        },
    ];
    assert_eq!(
        show_resource(f, &contents),
        "resource file:///pair.txt text\nfirst content\nresource file:///pair.txt text/plain\nsecond content\n"
    );
}

#[test]
fn reload_reports_tool_count() {
    assert_eq!(reload_message(3), "reloaded 3 tools");
}

#[test]
fn refresh_fetches_exactly_the_advertised_lists() {
    assert_eq!(lists_to_fetch(true, false, true), (true, false, true));
    assert_eq!(lists_to_fetch(false, true, false), (false, true, false));
}

#[test]
fn refreshed_lists_are_sorted_or_empty() {
    let none: Option<Vec<ToolInfo>> = None;
    assert!(refreshed_list(none).is_empty());
    let fetched = Some(vec![tool("b", "1"), tool("a", "2")]);
    let names: Vec<String> = refreshed_list(fetched).iter().map(|t| t.name.clone()).collect();
    assert_eq!(names, vec!["a".to_string(), "b".to_string()]);
}

#[test]
fn read_events_decide_the_next_step() {
    assert!(matches!(next_action(ReadEvent::EndOfInput), LoopAction::Stop));
    assert!(matches!(next_action(ReadEvent::Interrupted), LoopAction::ShowInterrupted));
    assert!(matches!(next_action(ReadEvent::Ignored), LoopAction::Skip));
    assert!(matches!(next_action(ReadEvent::Line("   ".to_string())), LoopAction::Skip));
    match next_action(ReadEvent::Line("  tools  ".to_string())) {
        LoopAction::Run(c) => assert_eq!(c, "tools"),
        _ => panic!("a command line is run"),
    }
}

#[test]
fn failed_steps_show_their_error_and_go_on() {
    let f = Formatter::new(false, false);
    assert_eq!(after_step(f, Ok(true)), (None, true));
    assert_eq!(after_step(f, Ok(false)), (None, false));
    assert_eq!(after_step(f, Err("boom".to_string())), (Some("boom".to_string()), true));
    let colored = Formatter::new(true, false);
    assert_eq!(
        after_step(colored, Err("boom".to_string())),
        (Some("\u{1b}[1;31mboom\u{1b}[0m".to_string()), true)
    );
}
