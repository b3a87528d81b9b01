//! The interactive shell's decisions: what a line asks for, what each
//! command shows or which request it sends, how replies and
//! notifications are shown, and the prompt.
use vstd::prelude::*;
pub use crate::repl::{parse_arguments, parse_command, ReplCommand, ReplError};
use crate::format::{spec_resource, Formatter, TextStyle};
use crate::json::{spec_json_pretty, Json, JsonModel};
use crate::mcp::{ClientNotification, ResourceBody, ResourceInfo, ServerIntro, ToolInfo};
use crate::repl::{help_text, is_help};
use crate::session::{find_by_name, Named};
use crate::text::{concat, decimal, decimal_string, owned, trim, trim_str};

verus! {

/// What the shell does for a command.
pub enum Step {
    /// Show this text.
    Show(String),
    /// Read the resource at `uri` and show its contents.
    ReadResource { uri: String },
    /// Call the tool with these arguments and show its result.
    CallTool { name: String, arguments: Json },
    /// Send this request as it is and show the reply.
    Raw { method: String, params: Option<Json> },
    /// Fetch the server's lists again, rebuild completion and report.
    Reload,
    /// Close the session and leave.
    Quit,
}

/// The error for a server that gave no initialize result.
pub open spec fn no_server_info() -> Seq<char> {
    "server did not provide initialize info"@
}

/// The error for a schema of a tool the server does not have.
pub open spec fn unknown_tool(name: Seq<char>) -> Seq<char> {
    "unknown tool: "@ + name
}

/// The position of the first item named `name`, if any.
pub open spec fn first_named<T: Named>(items: Seq<T>, name: Seq<char>) -> Option<int> {
    if exists|i: int| 0 <= i < items.len() && #[trigger] items[i].name_view() == name {
        Some(
            choose|i: int|
                0 <= i < items.len() && #[trigger] items[i].name_view() == name && forall|j: int|
                    0 <= j < i ==> items[j].name_view() != name,
        )
    } else {
        None
    }
}

/// The model of an optional JSON value.
pub open spec fn opt_model(o: Option<Json>) -> Option<JsonModel> {
    match o {
        Some(j) => Some(j@),
        None => None,
    }
}

/// The first item named `name` is the one at `i` where no item before it is
/// so named.
proof fn lemma_first_named<T: Named>(items: Seq<T>, name: Seq<char>, i: int)
    requires
        0 <= i < items.len(),
        items[i].name_view() == name,
        forall|j: int| 0 <= j < i ==> #[trigger] items[j].name_view() != name,
    ensures
        first_named(items, name) == Some(i),
{
    let k = choose|k: int|
        0 <= k < items.len() && #[trigger] items[k].name_view() == name && forall|j: int|
            0 <= j < k ==> items[j].name_view() != name;
    assert(items[i].name_view() == name);
    if k < i {
        assert(items[k].name_view() != name);
    } else if k > i {
        assert(items[i].name_view() != name);
    }
}

/// What the shell does for `command`, with the server's metadata (where it
/// gave any), tools and resources at hand: the commands that only show what
/// the session holds give the text to show; those that ask the server give
/// the request.
pub fn plan(
    formatter: Formatter,
    command: ReplCommand,
    intro: Option<&ServerIntro>,
    tools: &[ToolInfo],
    resources: &[ResourceInfo],
) -> (r: Result<Step, ReplError>)
    ensures
        command is Help ==> (r matches Ok(Step::Show(t)) && is_help(formatter, t@)),
        command is Info ==> match intro {
            Some(i) => r matches Ok(Step::Show(t)) && t@ == spec_json_pretty(i.json@),
            None => r matches Err(e) && e@ == no_server_info(),
        },
        command is Tools ==> (r matches Ok(Step::Show(t)) && t@ == crate::format::spec_tools(
            formatter,
            tools@.map_values(|x: ToolInfo| x@),
        )),
        command is Resources ==> (r matches Ok(Step::Show(t)) && t@ == crate::format::spec_resources(
            formatter,
            resources@.map_values(|x: ResourceInfo| x@),
        )),
        command matches ReplCommand::Schema { tool } ==> match first_named(tools@, tool@) {
            Some(i) => r matches Ok(Step::Show(t)) && t@ == spec_json_pretty(tools@[i].input_schema@),
            None => r matches Err(e) && e@ == unknown_tool(tool@),
        },
        command matches ReplCommand::Resource { uri } ==> (r matches Ok(Step::ReadResource { uri: u })
            && u@ == uri@),
        command matches ReplCommand::Tool { name, arguments } ==> (r matches Ok(
            Step::CallTool { name: n, arguments: a },
        ) && n@ == name@ && a@ == arguments@),
        command matches ReplCommand::Raw { method, params } ==> (r matches Ok(
            Step::Raw { method: m, params: p },
        ) && m@ == method@ && opt_model(p) == opt_model(params)),
        command is Reload ==> (r matches Ok(Step::Reload)),
        command is Quit ==> (r matches Ok(Step::Quit)),
{
    match command {
        ReplCommand::Help => {
            let h = help_text(formatter);
            Ok(Step::Show(h))
        },
        ReplCommand::Info => match intro {
            Some(i) => Ok(Step::Show(formatter.server_info(i))),
            None => Err(ReplError::Command(owned("server did not provide initialize info"))),
        },
        ReplCommand::Tools => Ok(Step::Show(formatter.tools(tools))),
        ReplCommand::Resources => Ok(Step::Show(formatter.resources(resources))),
        ReplCommand::Schema { tool } => match find_by_name(tools, tool.as_str()) {
            Some(i) => {
                proof {
                    lemma_first_named(tools@, tool@, i as int);
                }
                Ok(Step::Show(formatter.schema(&tools[i])))
            },
            None => Err(ReplError::Command(concat("unknown tool: ", tool.as_str()))),
        },
        ReplCommand::Resource { uri } => Ok(Step::ReadResource { uri }),
        ReplCommand::Tool { name, arguments } => Ok(Step::CallTool { name, arguments }),
        ReplCommand::Raw { method, params } => Ok(Step::Raw { method, params }),
        ReplCommand::Reload => Ok(Step::Reload),
        ReplCommand::Quit => Ok(Step::Quit),
    }
}

/// The contents of a resource, each shown in turn.
pub fn show_resource(formatter: Formatter, contents: &[ResourceBody]) -> (r: String)
    ensures
        r@ == contents@.map_values(|b: ResourceBody| spec_resource(formatter, b@)).flatten_alt(),
{
    let ghost shown = contents@.map_values(|b: ResourceBody| spec_resource(formatter, b@));
    let mut out = String::new();
    let mut i: usize = 0;
    while i < contents.len()
        invariant
            i <= contents@.len(),
            shown == contents@.map_values(|b: ResourceBody| spec_resource(formatter, b@)),
            out@ == shown.take(i as int).flatten_alt(),
        decreases contents@.len() - i,
    {
        out.append(formatter.resource(&contents[i]).as_str());
        assert(shown.take(i + 1).drop_last() =~= shown.take(i as int));
        i = i + 1;
    }
    assert(shown.take(i as int) =~= shown);
    out
}

/// The report after the lists were fetched again.
pub fn reload_message(tool_count: usize) -> (r: String)
    ensures
        r@ == "reloaded "@ + decimal(tool_count as nat) + " tools"@,
{
    let mut out = owned("reloaded ");
    out.append(decimal_string(tool_count).as_str());
    out.append(" tools");
    out
}

/// A notification as the shell shows it: a dimmed tag, then its JSON or
/// message.
pub open spec fn spec_notification_line(f: Formatter, n: ClientNotification) -> Seq<char> {
    match n {
        ClientNotification::Log { level, data } => f.styled(TextStyle::Dim, "["@ + level@ + "]"@) + " "@
            + spec_json_pretty(data@),
        ClientNotification::Progress(p) => f.styled(TextStyle::Dim, "[progress]"@) + " "@ + spec_json_pretty(
            p@,
        ),
        ClientNotification::Cancelled(c) => f.styled(TextStyle::Dim, "[cancelled]"@) + " "@
            + spec_json_pretty(c@),
        ClientNotification::ElicitationDeclined(m) => f.styled(TextStyle::Dim, "[elicitation]"@) + " "@
            + m@,
    }
}

/// A notification as the shell shows it.
pub fn notification_line(formatter: Formatter, n: &ClientNotification) -> (r: String)
    ensures
        r@ == spec_notification_line(formatter, *n),
{
    let (tag, rest) = match n {
        ClientNotification::Log { level, data } => {
            let mut tag = owned("[");
            tag.append(level.as_str());
            tag.append("]");
            (tag, formatter.json_value(data))
        },
        ClientNotification::Progress(p) => (owned("[progress]"), formatter.json_value(p)),
        ClientNotification::Cancelled(c) => (owned("[cancelled]"), formatter.json_value(c)),
        ClientNotification::ElicitationDeclined(m) => (owned("[elicitation]"), m.clone()),
    };
    let mut out = formatter.dim(tag.as_str());
    out.append(" ");
    out.append(rest.as_str());
    out
}

/// The shell's prompt: `mcp`, or `mcp:` and the server's name where it has
/// one.
pub fn prompt_text(server_name: &str) -> (r: String)
    ensures
        r@ == if server_name@.len() == 0 {
            "mcp"@
        } else {
            "mcp:"@ + server_name@
        },
{
    if server_name.unicode_len() == 0 {
        owned("mcp")
    } else {
        concat("mcp:", server_name)
    }
}

/// The command that an input line holds: the line trimmed, or nothing where
/// it is blank.
pub fn command_line(input: &str) -> (r: Option<String>)
    ensures
        match r {
            Some(line) => trim(input@).len() > 0 && line@ == trim(input@),
            None => trim(input@).len() == 0,
        },
{
    let line = trim_str(input);
    if line.as_str().unicode_len() == 0 {
        None
    } else {
        Some(line)
    }
}

/// What reading a line from the terminal gave.
pub enum ReadEvent {
    /// A line of input (or a command the editor passed on).
    Line(String),
    /// End of input (Ctrl-D).
    EndOfInput,
    /// The line was abandoned (Ctrl-C).
    Interrupted,
    /// Anything else the editor reports.
    Ignored,
}

/// What the shell does next with what it read.
pub enum LoopAction {
    /// Perform this command.
    Run(String),
    /// Read the next line.
    Skip,
    /// Show that the line was abandoned, then read the next one.
    ShowInterrupted,
    /// Leave the shell.
    Stop,
}

/// What the shell does with what it read: end of input leaves, an abandoned
/// line is shown as such, a blank line or another editor event is passed
/// over, and any other line is run, trimmed.
pub fn next_action(e: ReadEvent) -> (a: LoopAction)
    ensures
        e is EndOfInput ==> a is Stop,
        e is Interrupted ==> a is ShowInterrupted,
        e is Ignored ==> a is Skip,
        e matches ReadEvent::Line(l) ==> (trim(l@).len() == 0 ==> a is Skip) && (trim(l@).len() > 0
            ==> (a matches LoopAction::Run(c) && c@ == trim(l@))),
{
    match e {
        ReadEvent::Line(l) => match command_line(l.as_str()) {
            Some(c) => LoopAction::Run(c),
            None => LoopAction::Skip,
        },
        ReadEvent::EndOfInput => LoopAction::Stop,
        ReadEvent::Interrupted => LoopAction::ShowInterrupted,
        ReadEvent::Ignored => LoopAction::Skip,
    }
}

/// What the shell shows and whether it goes on after a command: a command
/// that succeeded goes on (or leaves, for `quit`) and shows nothing more; one
/// that failed shows its error, styled as one, and goes on.
pub fn after_step(f: Formatter, outcome: Result<bool, String>) -> (r: (Option<String>, bool))
    ensures
        outcome == Ok::<bool, String>(false) ==> r.0 is None && !r.1,
        outcome == Ok::<bool, String>(true) ==> r.0 is None && r.1,
        outcome matches Err(m) ==> r.1 && (r.0 matches Some(t) && t@ == f.styled(TextStyle::Error, m@)),
{
    match outcome {
        Ok(go_on) => (None, go_on),
        Err(m) => (Some(f.error(m.as_str())), true),
    }
}

} // verus!
