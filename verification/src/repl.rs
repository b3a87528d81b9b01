//! The REPL's command language: splitting a line into words, parsing the
//! command and the tool arguments it carries, and completing partial input.
use vstd::prelude::*;
use vstd::string::StringSliceAdditionalSpecFns;
use crate::json::{
    entries_model, entries_wf, keys_sorted, key_lt, lemma_entries_model, lemma_key_lt_asym,
    lemma_key_lt_irrefl, lemma_obj_insert_wf, lemma_object_wf, lookup, obj_insert, object_insert,
    parse_json, spec_parse_json, Json, JsonModel,
};
use crate::mcp::{ResourceInfo, ToolInfo};
use crate::order::{sort_strings, sorted_distinct, sorted_strings, strictly_sorted};
use crate::format::Formatter;
use crate::json::spec_json_pretty;
use crate::repl_types::{doc_entry, doc_line, CommandSpec};
use crate::session::{object_from_value, spec_object_from_value};
use crate::text::{
    chars_of, concat, has_prefix, is_ws, is_whitespace, join, join_strings, lemma_split_on_len,
    lemma_views_push, owned, split_on, split_once, split_once_str, split_str, starts_with,
    starts_with_char, str_eq, string_from_range, tail, views,
};
use crate::json::object_get;

verus! {

/// What `shlex::split` gives for a line: its words, or `None` where the line
/// is not well quoted.
pub uninterp spec fn spec_shlex_split(line: Seq<char>) -> Option<Seq<Seq<char>>>;

/// Splits a line into words as a POSIX shell would, with `shlex::split`; its
/// result is named by `spec_shlex_split`.
#[verifier::external_body]
pub fn shell_words(line: &str) -> (r: Option<Vec<String>>)
    ensures
        match r {
            Some(words) => spec_shlex_split(line@) == Some(views(words@)),
            None => spec_shlex_split(line@) is None,
        },
{
    shlex::split(line)
}

/// An error that a REPL command reports.
#[derive(Debug)]
pub enum ReplError {
    Command(String),
}

impl View for ReplError {
    type V = Seq<char>;

    open spec fn view(&self) -> Seq<char> {
        match self {
            ReplError::Command(m) => m@,
        }
    }
}

impl ReplError {
    /// The message of the error.
    pub fn to_string(&self) -> (r: String)
        ensures
            r@ == self@,
    {
        match self {
            ReplError::Command(m) => m.clone(),
        }
    }
}

/// A parsed REPL command.
#[derive(Debug, PartialEq)]
pub enum ReplCommand {
    Help,
    Info,
    Tools,
    Schema { tool: String },
    Tool { name: String, arguments: Json },
    Raw { method: String, params: Option<Json> },
    Resources,
    Resource { uri: String },
    Reload,
    Quit,
}

/// The mathematical value of a `ReplCommand`.
pub enum CommandModel {
    Help,
    Info,
    Tools,
    Schema { tool: Seq<char> },
    Tool { name: Seq<char>, arguments: JsonModel },
    Raw { method: Seq<char>, params: Option<JsonModel> },
    Resources,
    Resource { uri: Seq<char> },
    Reload,
    Quit,
}

impl View for ReplCommand {
    type V = CommandModel;

    open spec fn view(&self) -> CommandModel {
        match self {
            ReplCommand::Help => CommandModel::Help,
            ReplCommand::Info => CommandModel::Info,
            ReplCommand::Tools => CommandModel::Tools,
            ReplCommand::Schema { tool } => CommandModel::Schema { tool: tool@ },
            ReplCommand::Tool { name, arguments } => CommandModel::Tool {
                name: name@,
                arguments: arguments@,
            },
            ReplCommand::Raw { method, params } => CommandModel::Raw {
                method: method@,
                params: match params {
                    Some(p) => Some(p@),
                    None => None,
                },
            },
            ReplCommand::Resources => CommandModel::Resources,
            ReplCommand::Resource { uri } => CommandModel::Resource { uri: uri@ },
            ReplCommand::Reload => CommandModel::Reload,
            ReplCommand::Quit => CommandModel::Quit,
        }
    }
}

/// The view of a parse result: the command's model or the error's message.
pub open spec fn command_result(r: Result<ReplCommand, ReplError>) -> Result<
    CommandModel,
    Seq<char>,
> {
    match r {
        Ok(c) => Ok(c@),
        Err(e) => Err(e@),
    }
}

/// The view of an arguments result: the value's model or the error's message.
pub open spec fn json_result(r: Result<Json, ReplError>) -> Result<JsonModel, Seq<char>> {
    match r {
        Ok(j) => Ok(j@),
        Err(e) => Err(e@),
    }
}

/// The view of what a file read gave.
pub open spec fn read_view(f: Option<String>) -> Option<Seq<char>> {
    match f {
        Some(t) => Some(t@),
        None => None,
    }
}

/// The value of a `key=value` argument's value: `true`, `false` and `null`
/// as such, anything else that `serde_json` reads as JSON as that value, and
/// any other text as a string.
pub open spec fn spec_parse_scalar(raw: Seq<char>) -> JsonModel {
    if raw == "true"@ {
        JsonModel::Bool(true)
    } else if raw == "false"@ {
        JsonModel::Bool(false)
    } else if raw == "null"@ {
        JsonModel::Null
    } else {
        match spec_parse_json(raw) {
            Ok(v) => v,
            Err(_) => JsonModel::Str(raw),
        }
    }
}

/// `es` with `v` stored at the path `parts`, creating empty objects for
/// missing keys on the way; `Err` holds the key whose existing value is not an
/// object.
pub open spec fn spec_insert_path(
    es: Seq<(Seq<char>, JsonModel)>,
    parts: Seq<Seq<char>>,
    v: JsonModel,
) -> Result<Seq<(Seq<char>, JsonModel)>, Seq<char>>
    decreases parts.len(),
{
    if parts.len() <= 1 {
        Ok(obj_insert(es, parts[0], v))
    } else {
        let child = match lookup(es, parts[0]) {
            Some(c) => c,
            None => JsonModel::Object(Seq::empty()),
        };
        match child {
            JsonModel::Object(inner) => match spec_insert_path(inner, parts.drop_first(), v) {
                Ok(inner2) => Ok(obj_insert(es, parts[0], JsonModel::Object(inner2))),
                Err(p) => Err(p),
            },
            _ => Err(parts[0]),
        }
    }
}

/// The value at the path `parts` in `es`, if there is one.
pub open spec fn lookup_path(es: Seq<(Seq<char>, JsonModel)>, parts: Seq<Seq<char>>) -> Option<
    JsonModel,
>
    decreases parts.len(),
{
    if parts.len() <= 1 {
        lookup(es, parts[0])
    } else {
        match lookup(es, parts[0]) {
            Some(JsonModel::Object(inner)) => lookup_path(inner, parts.drop_first()),
            _ => None,
        }
    }
}

/// Whether some piece of `parts` is empty.
pub open spec fn has_empty_part(parts: Seq<Seq<char>>) -> bool {
    exists|i: int| 0 <= i < parts.len() && #[trigger] parts[i].len() == 0
}

/// `es` with `v` stored under the dotted key `key`.
pub open spec fn spec_insert_dotted(es: Seq<(Seq<char>, JsonModel)>, key: Seq<char>, v: JsonModel) -> Result<
    Seq<(Seq<char>, JsonModel)>,
    Seq<char>,
> {
    let parts = split_on(key, '.');
    if has_empty_part(parts) {
        Err("invalid dotted key: "@ + key)
    } else {
        match spec_insert_path(es, parts, v) {
            Ok(es2) => Ok(es2),
            Err(p) => Err("cannot assign nested key through non-object: "@ + p),
        }
    }
}

/// The object that `key=value` words build on top of `es`, or the message of
/// the first word that is refused.
pub open spec fn spec_key_values(es: Seq<(Seq<char>, JsonModel)>, words: Seq<Seq<char>>) -> Result<
    Seq<(Seq<char>, JsonModel)>,
    Seq<char>,
>
    decreases words.len(),
{
    if words.len() == 0 {
        Ok(es)
    } else {
        let w = words[0];
        if w.len() > 0 && w[0] == '@' {
            Err("@file must be the only tool argument"@)
        } else {
            match split_once(w, '=') {
                None => Err("expected key=value argument, got "@ + w),
                Some(kv) => if kv.0.len() == 0 {
                    Err("argument key cannot be empty"@)
                } else {
                    match spec_insert_dotted(es, kv.0, spec_parse_scalar(kv.1)) {
                        Ok(es2) => spec_key_values(es2, words.drop_first()),
                        Err(m) => Err(m),
                    }
                },
            }
        }
    }
}

/// The object that JSON text gives, or the message that refuses it.
pub open spec fn spec_json_object(text: Seq<char>) -> Result<JsonModel, Seq<char>> {
    match spec_parse_json(text) {
        Ok(v) => match spec_object_from_value(v) {
            Ok(es) => Ok(JsonModel::Object(es)),
            Err(m) => Err(m),
        },
        Err(m) => Err(m),
    }
}

/// The path of the JSON file that tool arguments name with `@`, if they do.
pub open spec fn arguments_file(words: Seq<Seq<char>>) -> Option<Seq<char>> {
    if words.len() == 1 && !(words[0] == "--json"@) && words[0].len() > 0 && words[0][0] == '@' {
        Some(words[0].drop_first())
    } else {
        None
    }
}

/// The tool arguments that `words` give, where `file` is what reading the
/// file that they name gave.
pub open spec fn spec_parse_arguments(words: Seq<Seq<char>>, file: Option<Seq<char>>) -> Result<
    JsonModel,
    Seq<char>,
> {
    if words.len() == 0 {
        Ok(JsonModel::Object(Seq::empty()))
    } else if words[0] == "--json"@ {
        if words.len() < 2 {
            Err("usage: tool TOOL --json '{...}'"@)
        } else if words.len() > 2 {
            Err("--json accepts exactly one JSON object argument"@)
        } else {
            spec_json_object(words[1])
        }
    } else if words.len() == 1 && words[0].len() > 0 && words[0][0] == '@' {
        match file {
            None => Err("failed to read JSON argument file: "@ + words[0].drop_first()),
            Some(text) => spec_json_object(text),
        }
    } else {
        match spec_key_values(Seq::empty(), words) {
            Ok(es) => Ok(JsonModel::Object(es)),
            Err(m) => Err(m),
        }
    }
}

/// The one word that a command takes, or its usage message.
pub open spec fn spec_expect_one(words: Seq<Seq<char>>, usage: Seq<char>) -> Result<
    Seq<char>,
    Seq<char>,
> {
    if words.len() == 1 {
        Ok(words[0])
    } else {
        Err("usage: "@ + usage)
    }
}

/// The `tool` command that the words after `tool` give.
pub open spec fn spec_parse_tool(words: Seq<Seq<char>>, file: Option<Seq<char>>) -> Result<
    CommandModel,
    Seq<char>,
> {
    if words.len() == 0 {
        Err("usage: tool TOOL [key=value ... | --json '{...}' | @file.json]"@)
    } else {
        match spec_parse_arguments(words.drop_first(), file) {
            Ok(arguments) => Ok(CommandModel::Tool { name: words[0], arguments }),
            Err(m) => Err(m),
        }
    }
}

/// The `raw` command that the words after `raw` give.
pub open spec fn spec_parse_raw(words: Seq<Seq<char>>) -> Result<CommandModel, Seq<char>> {
    if words.len() == 0 {
        Err("usage: raw METHOD [JSON]"@)
    } else if words.len() == 1 {
        Ok(CommandModel::Raw { method: words[0], params: None })
    } else {
        match spec_parse_json(join(words.drop_first(), " "@)) {
            Ok(p) => Ok(CommandModel::Raw { method: words[0], params: Some(p) }),
            Err(_) => Err("raw params must be valid JSON"@),
        }
    }
}

/// The path of the file that a command line names for a tool's arguments.
pub open spec fn command_file(line: Seq<char>) -> Option<Seq<char>> {
    match spec_shlex_split(line) {
        Some(words) => if words.len() >= 2 && words[0] == "tool"@ {
            arguments_file(words.drop_first().drop_first())
        } else {
            None
        },
        None => None,
    }
}

/// The command that a line gives, where `file` is what reading the file that
/// it names gave.
pub open spec fn spec_parse_command(line: Seq<char>, file: Option<Seq<char>>) -> Result<
    CommandModel,
    Seq<char>,
> {
    match spec_shlex_split(line) {
        None => Err("failed to parse command line"@),
        Some(words) => if words.len() == 0 {
            Err("empty command"@)
        } else {
            let c = words[0];
            let rest = words.drop_first();
            if c == "help"@ || c == "?"@ {
                Ok(CommandModel::Help)
            } else if c == "info"@ {
                Ok(CommandModel::Info)
            } else if c == "tools"@ {
                Ok(CommandModel::Tools)
            } else if c == "resources"@ {
                Ok(CommandModel::Resources)
            } else if c == "resource"@ {
                match spec_expect_one(rest, "resource RESOURCE"@) {
                    Ok(uri) => Ok(CommandModel::Resource { uri }),
                    Err(m) => Err(m),
                }
            } else if c == "schema"@ {
                match spec_expect_one(rest, "schema TOOL"@) {
                    Ok(tool) => Ok(CommandModel::Schema { tool }),
                    Err(m) => Err(m),
                }
            } else if c == "tool"@ {
                spec_parse_tool(rest, file)
            } else if c == "raw"@ {
                spec_parse_raw(rest)
            } else if c == "reload"@ {
                Ok(CommandModel::Reload)
            } else if c == "quit"@ || c == "exit"@ {
                Ok(CommandModel::Quit)
            } else {
                Err("unknown command: "@ + c)
            }
        },
    }
}

/// An error with `message`.
fn fail<T>(message: &str) -> (r: Result<T, ReplError>)
    ensures
        r matches Err(e) && e@ == message@,
{
    Err(ReplError::Command(owned(message)))
}

/// The value of a `key=value` argument's value.
fn parse_scalar(raw: &str) -> (r: Json)
    ensures
        r@ == spec_parse_scalar(raw@),
        r@.wf(),
{
    if str_eq(raw, "true") {
        Json::Bool(true)
    } else if str_eq(raw, "false") {
        Json::Bool(false)
    } else if str_eq(raw, "null") {
        Json::Null
    } else if starts_with_char(raw, '{') || starts_with_char(raw, '[') {
        match parse_json(raw) {
            Ok(v) => v,
            Err(_) => Json::Str(owned(raw)),
        }
    } else {
        match parse_json(raw) {
            Ok(v) => v,
            Err(_) => Json::Str(owned(raw)),
        }
    }
}

/// Where `k` is stored at index `i` of sorted entries, `obj_insert` replaces
/// that entry.
proof fn lemma_obj_insert_at(es: Seq<(Seq<char>, JsonModel)>, i: int, k: Seq<char>, v: JsonModel)
    requires
        keys_sorted(es),
        0 <= i < es.len(),
        es[i].0 == k,
    ensures
        obj_insert(es, k, v) == es.update(i, (k, v)),
        lookup(es, k) == Some(es[i].1),
    decreases i,
{
    if i == 0 {
        assert(obj_insert(es, k, v) =~= es.update(0, (k, v)));
    } else {
        assert(key_lt(es[0].0, es[i].0));
        lemma_key_lt_irrefl(k);
        lemma_key_lt_asym(es[0].0, k);
        let t = es.drop_first();
        assert forall|a: int, b: int| 0 <= a < b < t.len() implies key_lt(
            #[trigger] t[a].0,
            #[trigger] t[b].0,
        ) by {
            assert(t[a] == es[a + 1]);
            assert(t[b] == es[b + 1]);
        }
        lemma_obj_insert_at(t, i - 1, k, v);
        assert(obj_insert(es, k, v) =~= es.update(i, (k, v)));
    }
}

/// Stores `value` at the path `parts[idx..]` in the sorted entries `root`.
fn insert_path(root: &mut Vec<(String, Json)>, parts: &Vec<String>, idx: usize, value: Json) -> (r:
    Result<(), String>)
    requires
        idx < parts.len(),
        entries_wf(entries_model(old(root)@)),
        value@.wf(),
    ensures
        match r {
            Ok(_) => spec_insert_path(
                entries_model(old(root)@),
                views(parts@).skip(idx as int),
                value@,
            ) == Ok::<_, Seq<char>>(entries_model(final(root)@)) && entries_wf(
                entries_model(final(root)@),
            ),
            Err(p) => spec_insert_path(
                entries_model(old(root)@),
                views(parts@).skip(idx as int),
                value@,
            ) == Err::<Seq<(Seq<char>, JsonModel)>, _>(p@),
        },
    decreases parts.len() - idx,
{
    let ghost es = entries_model(root@);
    let ghost ps = views(parts@).skip(idx as int);
    assert(ps[0] == parts@[idx as int]@);
    proof {
        lemma_entries_model(root@);
    }
    if idx + 1 == parts.len() {
        let ghost v = value@;
        object_insert(root, parts[idx].clone(), value);
        proof {
            lemma_obj_insert_wf(es, ps[0], v);
        }
        return Ok(());
    }
    assert(ps.drop_first() =~= views(parts@).skip(idx + 1));
    let mut i: usize = 0;
    while i < root.len() && !str_eq(root[i].0.as_str(), parts[idx].as_str())
        invariant
            i <= root.len(),
            es == entries_model(root@),
            es.len() == root.len(),
            forall|m: int| 0 <= m < root.len() ==> #[trigger] es[m] == (root@[m].0@, root@[m].1@),
            idx < parts.len(),
            ps[0] == parts@[idx as int]@,
            forall|m: int| 0 <= m < i ==> es[m].0 != ps[0],
        decreases root.len() - i,
    {
        i = i + 1;
    }
    if i == root.len() {
        proof {
            assert(lookup(es, ps[0]) is None) by {
                lemma_lookup_absent(es, ps[0]);
            }
        }
        let mut inner: Vec<(String, Json)> = Vec::new();
        proof {
            assert(entries_model(inner@) =~= Seq::<(Seq<char>, JsonModel)>::empty());
        }
        match insert_path(&mut inner, parts, idx + 1, value) {
            Ok(_) => {},
            Err(p) => {
                return Err(p);
            },
        }
        let ghost child = Json::Object(inner)@;
        proof {
            lemma_object_wf(entries_model(inner@));
        }
        object_insert(root, parts[idx].clone(), Json::Object(inner));
        proof {
            lemma_obj_insert_wf(es, ps[0], child);
        }
        return Ok(());
    }
    proof {
        lemma_first_match(es, i as int, ps[0]);
        lemma_obj_insert_at(es, i as int, ps[0], JsonModel::Null);
        assert(es[i as int].1.wf());
    }
    let is_object = match &root[i].1 {
        Json::Object(_) => true,
        _ => false,
    };
    if !is_object {
        return Err(parts[idx].clone());
    }
    let (key, child) = root.remove(i);
    let mut inner = match child {
        Json::Object(inner) => inner,
        _ => Vec::new(),
    };
    proof {
        lemma_object_wf(entries_model(inner@));
    }
    match insert_path(&mut inner, parts, idx + 1, value) {
        Ok(_) => {},
        Err(p) => {
            return Err(p);
        },
    }
    let ghost child2 = Json::Object(inner)@;
    proof {
        lemma_object_wf(entries_model(inner@));
        lemma_obj_insert_at(es, i as int, ps[0], child2);
        lemma_obj_insert_wf(es, ps[0], child2);
    }
    root.insert(i, (key, Json::Object(inner)));
    proof {
        lemma_entries_model(root@);
        assert(entries_model(root@) =~= es.update(i as int, (ps[0], child2)));
    }
    Ok(())
}

/// Sorted entries without `k` before index `i`, and `k` at `i`: `lookup`
/// finds it there.
proof fn lemma_first_match(es: Seq<(Seq<char>, JsonModel)>, i: int, k: Seq<char>)
    requires
        0 <= i < es.len(),
        es[i].0 == k,
        forall|m: int| 0 <= m < i ==> es[m].0 != k,
    ensures
        lookup(es, k) == Some(es[i].1),
    decreases i,
{
    if i > 0 {
        lemma_first_match(es.drop_first(), i - 1, k);
    }
}

/// Entries none of whose keys is `k` give no value for `k`.
proof fn lemma_lookup_absent(es: Seq<(Seq<char>, JsonModel)>, k: Seq<char>)
    requires
        forall|m: int| 0 <= m < es.len() ==> es[m].0 != k,
    ensures
        lookup(es, k) is None,
    decreases es.len(),
{
    if es.len() > 0 {
        lemma_lookup_absent(es.drop_first(), k);
    }
}

/// Stores `value` under the dotted key `key` in the sorted entries `root`.
fn insert_dotted(root: &mut Vec<(String, Json)>, key: &str, value: Json) -> (r: Result<
    (),
    ReplError,
>)
    requires
        entries_wf(entries_model(old(root)@)),
        value@.wf(),
    ensures
        match r {
            Ok(_) => spec_insert_dotted(entries_model(old(root)@), key@, value@) == Ok::<
                _,
                Seq<char>,
            >(entries_model(final(root)@)) && entries_wf(entries_model(final(root)@)),
            Err(e) => spec_insert_dotted(entries_model(old(root)@), key@, value@) == Err::<
                Seq<(Seq<char>, JsonModel)>,
                _,
            >(e@),
        },
{
    let parts = split_str(key, '.');
    proof {
        lemma_split_on_len(key@, '.');
    }
    let mut i: usize = 0;
    while i < parts.len()
        invariant
            i <= parts.len(),
            views(parts@) == split_on(key@, '.'),
            forall|m: int| 0 <= m < i ==> (#[trigger] views(parts@)[m]).len() > 0,
        decreases parts.len() - i,
    {
        if parts[i].as_str().unicode_len() == 0 {
            assert(views(parts@)[i as int].len() == 0);
            return Err(ReplError::Command(concat("invalid dotted key: ", key)));
        }
        i = i + 1;
    }
    assert(!has_empty_part(split_on(key@, '.')));
    assert(views(parts@).skip(0) =~= views(parts@));
    match insert_path(root, &parts, 0, value) {
        Ok(_) => Ok(()),
        Err(p) => Err(
            ReplError::Command(concat("cannot assign nested key through non-object: ", p.as_str())),
        ),
    }
}

/// The JSON object in `text`.
fn json_object(text: &str) -> (r: Result<Json, ReplError>)
    ensures
        json_result(r) == spec_json_object(text@),
        r matches Ok(j) ==> j@.wf(),
{
    match parse_json(text) {
        Ok(value) => {
            let ghost v = value@;
            match object_from_value(value) {
                Ok(es) => {
                    proof {
                        crate::json::lemma_object_wf(entries_model(es@));
                    }
                    Ok(Json::Object(es))
                },
                Err(m) => Err(ReplError::Command(m)),
            }
        },
        Err(m) => Err(ReplError::Command(m)),
    }
}

/// The object that `key=value` words give.
fn parse_key_values(words: &[String]) -> (r: Result<Json, ReplError>)
    ensures
        match r {
            Ok(j) => spec_key_values(Seq::empty(), views(words@)) == Ok::<_, Seq<char>>(
                match j@ {
                    JsonModel::Object(es) => es,
                    _ => Seq::empty(),
                },
            ) && j@ is Object && j@.wf(),
            Err(e) => spec_key_values(Seq::empty(), views(words@)) == Err::<
                Seq<(Seq<char>, JsonModel)>,
                _,
            >(e@),
        },
{
    let ghost ws = views(words@);
    let mut root: Vec<(String, Json)> = Vec::new();
    assert(entries_model(root@) =~= Seq::<(Seq<char>, JsonModel)>::empty());
    assert(ws.skip(0) =~= ws);
    let mut i: usize = 0;
    while i < words.len()
        invariant
            ws == views(words@),
            i <= words@.len(),
            spec_key_values(Seq::empty(), ws) == spec_key_values(
                entries_model(root@),
                ws.skip(i as int),
            ),
            entries_wf(entries_model(root@)),
        decreases words@.len() - i,
    {
        let ghost rest = ws.skip(i as int);
        assert(rest[0] == words@[i as int]@);
        assert(rest.drop_first() =~= ws.skip(i + 1));
        let word = words[i].as_str();
        if starts_with_char(word, '@') {
            return fail("@file must be the only tool argument");
        }
        match split_once_str(word, '=') {
            None => {
                return Err(ReplError::Command(concat("expected key=value argument, got ", word)));
            },
            Some((key, raw)) => {
                if key.as_str().unicode_len() == 0 {
                    return fail("argument key cannot be empty");
                }
                let value = parse_scalar(raw.as_str());
                match insert_dotted(&mut root, key.as_str(), value) {
                    Ok(_) => {},
                    Err(e) => {
                        return Err(e);
                    },
                }
            },
        }
        i = i + 1;
    }
    assert(ws.skip(i as int).len() == 0);
    proof {
        crate::json::lemma_object_wf(entries_model(root@));
    }
    Ok(Json::Object(root))
}

/// The tool arguments that `words` give: none, `--json` and one JSON object,
/// `@` and the path of a file that holds one (read with `read_file`, which
/// gives `None` where the file cannot be read), or `key=value` words, where a
/// dotted key names a path of nested objects.
pub fn parse_arguments<F: Fn(&str) -> Option<String>>(words: &[String], read_file: F) -> (r: Result<
    Json,
    ReplError,
>)
    requires
        forall|p: &str| call_requires(read_file, (p,)),
    ensures
        match arguments_file(views(words@)) {
            None => json_result(r) == spec_parse_arguments(views(words@), None),
            Some(path) => exists|p: &str, f: Option<String>|
                p@ == path && call_ensures(read_file, (p,), f) && json_result(r)
                    == spec_parse_arguments(views(words@), read_view(f)),
        },
        r matches Ok(j) ==> j@.wf(),
{
    let ghost ws = views(words@);
    if words.len() == 0 {
        let e: Vec<(String, Json)> = Vec::new();
        assert(entries_model(e@) =~= Seq::<(Seq<char>, JsonModel)>::empty());
        return Ok(Json::Object(e));
    }
    assert(ws[0] == words@[0]@);
    if str_eq(words[0].as_str(), "--json") {
        if words.len() < 2 {
            return fail("usage: tool TOOL --json '{...}'");
        }
        if words.len() > 2 {
            return fail("--json accepts exactly one JSON object argument");
        }
        assert(ws[1] == words@[1]@);
        return json_object(words[1].as_str());
    }
    if words.len() == 1 && starts_with_char(words[0].as_str(), '@') {
        let cs = chars_of(words[0].as_str());
        let path = string_from_range(&cs, 1, cs.len());
        assert(path@ =~= ws[0].drop_first());
        let f = read_file(path.as_str());
        let ghost fv = read_view(f);
        match f {
            None => {
                return Err(ReplError::Command(concat("failed to read JSON argument file: ", path.as_str())));
            },
            Some(text) => {
                return json_object(text.as_str());
            },
        }
    }
    parse_key_values(words)
}

/// The one word of a command that takes one.
fn expect_one(words: &[String], usage: &str) -> (r: Result<String, ReplError>)
    ensures
        match r {
            Ok(w) => spec_expect_one(views(words@), usage@) == Ok::<_, Seq<char>>(w@),
            Err(e) => spec_expect_one(views(words@), usage@) == Err::<Seq<char>, _>(e@),
        },
{
    if words.len() == 1 {
        Ok(words[0].clone())
    } else {
        Err(ReplError::Command(concat("usage: ", usage)))
    }
}

/// The `tool` command that the words after `tool` give.
fn parse_tool_command<F: Fn(&str) -> Option<String>>(words: &[String], read_file: F) -> (r: Result<
    ReplCommand,
    ReplError,
>)
    requires
        forall|p: &str| call_requires(read_file, (p,)),
    ensures
        words@.len() == 0 ==> command_result(r) == spec_parse_tool(views(words@), None),
        words@.len() > 0 ==> match arguments_file(views(words@).drop_first()) {
            None => command_result(r) == spec_parse_tool(views(words@), None),
            Some(path) => exists|p: &str, f: Option<String>|
                p@ == path && call_ensures(read_file, (p,), f) && command_result(r)
                    == spec_parse_tool(views(words@), read_view(f)),
        },
{
    if words.len() == 0 {
        return fail("usage: tool TOOL [key=value ... | --json '{...}' | @file.json]");
    }
    let rest = tail(words, 1);
    assert(views(words@).drop_first() =~= views(words@).skip(1));
    let name = words[0].clone();
    assert(name@ == views(words@)[0]);
    match parse_arguments(rest.as_slice(), read_file) {
        Ok(arguments) => Ok(ReplCommand::Tool { name, arguments }),
        Err(e) => Err(e),
    }
}

/// The `raw` command that the words after `raw` give.
fn parse_raw_command(words: &[String]) -> (r: Result<ReplCommand, ReplError>)
    ensures
        command_result(r) == spec_parse_raw(views(words@)),
{
    if words.len() == 0 {
        return fail("usage: raw METHOD [JSON]");
    }
    let method = words[0].clone();
    assert(method@ == views(words@)[0]);
    if words.len() == 1 {
        return Ok(ReplCommand::Raw { method, params: None });
    }
    let rest = tail(words, 1);
    assert(views(words@).drop_first() =~= views(words@).skip(1));
    let text = join_strings(&rest, " ");
    match parse_json(text.as_str()) {
        Ok(p) => Ok(ReplCommand::Raw { method, params: Some(p) }),
        Err(_) => fail("raw params must be valid JSON"),
    }
}

/// The names of the commands other than `tool` differ from it.
proof fn lemma_other_commands_differ_from_tool()
    ensures
        "help"@ != "tool"@,
        "?"@ != "tool"@,
        "info"@ != "tool"@,
        "tools"@ != "tool"@,
        "resources"@ != "tool"@,
        "resource"@ != "tool"@,
        "schema"@ != "tool"@,
{
    reveal_strlit("tool");
    reveal_strlit("help");
    reveal_strlit("?");
    reveal_strlit("info");
    reveal_strlit("tools");
    reveal_strlit("resources");
    reveal_strlit("resource");
    reveal_strlit("schema");
    assert("help"@[0] != "tool"@[0]);
    assert("?"@.len() != "tool"@.len());
    assert("info"@[0] != "tool"@[0]);
    assert("tools"@.len() != "tool"@.len());
    assert("resources"@[0] != "tool"@[0]);
    assert("resource"@[0] != "tool"@[0]);
    assert("schema"@[0] != "tool"@[0]);
}

/// The command that a REPL line gives. A `tool` command whose arguments name
/// a file with `@` reads it with `read_file`, which gives `None` where the
/// file cannot be read.
pub fn parse_command<F: Fn(&str) -> Option<String>>(line: &str, read_file: F) -> (r: Result<
    ReplCommand,
    ReplError,
>)
    requires
        forall|p: &str| call_requires(read_file, (p,)),
    ensures
        match command_file(line@) {
            None => command_result(r) == spec_parse_command(line@, None),
            Some(path) => exists|p: &str, f: Option<String>|
                p@ == path && call_ensures(read_file, (p,), f) && command_result(r)
                    == spec_parse_command(line@, read_view(f)),
        },
{
    let words = match shell_words(line) {
        Some(words) => words,
        None => {
            return fail("failed to parse command line");
        },
    };
    if words.len() == 0 {
        return fail("empty command");
    }
    let ghost ws = views(words@);
    assert(ws[0] == words@[0]@);
    proof {
        lemma_other_commands_differ_from_tool();
    }
    let rest = tail(words.as_slice(), 1);
    assert(ws.drop_first() =~= ws.skip(1));
    let command = words[0].as_str();
    if str_eq(command, "help") || str_eq(command, "?") {
        Ok(ReplCommand::Help)
    } else if str_eq(command, "info") {
        Ok(ReplCommand::Info)
    } else if str_eq(command, "tools") {
        Ok(ReplCommand::Tools)
    } else if str_eq(command, "resources") {
        Ok(ReplCommand::Resources)
    } else if str_eq(command, "resource") {
        match expect_one(rest.as_slice(), "resource RESOURCE") {
            Ok(uri) => Ok(ReplCommand::Resource { uri }),
            Err(e) => Err(e),
        }
    } else if str_eq(command, "schema") {
        match expect_one(rest.as_slice(), "schema TOOL") {
            Ok(tool) => Ok(ReplCommand::Schema { tool }),
            Err(e) => Err(e),
        }
    } else if str_eq(command, "tool") {
        proof {
            if ws.len() >= 2 {
                assert(ws.drop_first().drop_first() =~= views(rest@).drop_first());
            }
        }
        let r = parse_tool_command(rest.as_slice(), read_file);
        proof {
            if ws.len() >= 2 {
                if let Some(path) = arguments_file(views(rest@).drop_first()) {
                    let (p, f) = choose|p: &str, f: Option<String>|
                        p@ == path && call_ensures(read_file, (p,), f) && command_result(r)
                            == spec_parse_tool(views(rest@), read_view(f));
                    assert(spec_parse_command(line@, read_view(f)) == spec_parse_tool(
                        views(rest@),
                        read_view(f),
                    ));
                    assert(command_file(line@) == Some(path));
                    assert(p@ == path && call_ensures(read_file, (p,), f) && command_result(r)
                        == spec_parse_command(line@, read_view(f)));
                }
            }
        }
        r
    } else if str_eq(command, "raw") {
        parse_raw_command(rest.as_slice())
    } else if str_eq(command, "reload") {
        Ok(ReplCommand::Reload)
    } else if str_eq(command, "quit") || str_eq(command, "exit") {
        Ok(ReplCommand::Quit)
    } else {
        Err(ReplError::Command(concat("unknown command: ", command)))
    }
}

/// A value found in well formed entries is well formed.
proof fn lemma_lookup_wf(es: Seq<(Seq<char>, JsonModel)>, k: Seq<char>)
    requires
        entries_wf(es),
    ensures
        lookup(es, k) matches Some(x) ==> x.wf(),
    decreases es.len(),
{
    if es.len() > 0 && es[0].0 != k {
        let t = es.drop_first();
        assert forall|a: int, b: int| 0 <= a < b < t.len() implies key_lt(
            #[trigger] t[a].0,
            #[trigger] t[b].0,
        ) by {
            assert(t[a] == es[a + 1]);
            assert(t[b] == es[b + 1]);
        }
        assert forall|i: int| 0 <= i < t.len() implies #[trigger] t[i].1.wf() by {
            assert(t[i] == es[i + 1]);
        }
        lemma_lookup_wf(t, k);
    }
}

/// Law: once a value is stored at a dotted path, reading that path gives it
/// back, every other top-level key keeps its value, and the object stays well
/// formed; a path through fresh keys never fails.
pub proof fn lemma_insert_path_reads_back(
    es: Seq<(Seq<char>, JsonModel)>,
    parts: Seq<Seq<char>>,
    v: JsonModel,
)
    requires
        entries_wf(es),
        v.wf(),
        parts.len() >= 1,
    ensures
        spec_insert_path(es, parts, v) matches Ok(es2) ==> {
            &&& lookup_path(es2, parts) == Some(v)
            &&& forall|k: Seq<char>| k != parts[0] ==> lookup(es2, k) == lookup(es, k)
            &&& entries_wf(es2)
        },
        lookup(es, parts[0]) is None ==> spec_insert_path(es, parts, v) is Ok,
    decreases parts.len(),
{
    crate::json::lemma_obj_insert(es, parts[0], v);
    if parts.len() <= 1 {
        lemma_obj_insert_wf(es, parts[0], v);
    } else {
        lemma_lookup_wf(es, parts[0]);
        let child = match lookup(es, parts[0]) {
            Some(c) => c,
            None => JsonModel::Object(Seq::empty()),
        };
        if let JsonModel::Object(inner) = child {
            lemma_object_wf(inner);
            lemma_insert_path_reads_back(inner, parts.drop_first(), v);
            if let Ok(inner2) = spec_insert_path(inner, parts.drop_first(), v) {
                let c2 = JsonModel::Object(inner2);
                lemma_object_wf(inner2);
                crate::json::lemma_obj_insert(es, parts[0], c2);
                lemma_obj_insert_wf(es, parts[0], c2);
            }
        }
    }
}

/// Law: tool arguments, where they parse, are a JSON object.
pub proof fn lemma_arguments_are_objects(words: Seq<Seq<char>>, file: Option<Seq<char>>)
    ensures
        spec_parse_arguments(words, file) matches Ok(v) ==> v is Object,
{
}

/// Law: an argument value other than `true`, `false` and `null` is the JSON
/// value that `serde_json` reads from it, whatever character it starts with;
/// text that `serde_json` refuses is kept as a string; `true`, `false` and
/// `null` are the two booleans and null.
pub proof fn lemma_scalar_reads_json(raw: Seq<char>)
    requires
        raw != "true"@,
        raw != "false"@,
        raw != "null"@,
    ensures
        spec_parse_json(raw) matches Ok(v) ==> spec_parse_scalar(raw) == v,
        spec_parse_json(raw) is Err ==> spec_parse_scalar(raw) == JsonModel::Str(raw),
        spec_parse_scalar("true"@) == JsonModel::Bool(true),
        spec_parse_scalar("false"@) == JsonModel::Bool(false),
        spec_parse_scalar("null"@) == JsonModel::Null,
{
    reveal_strlit("true");
    reveal_strlit("false");
    reveal_strlit("null");
    assert("true"@.len() != "false"@.len());
    assert("null"@[0] != "true"@[0]);
    assert("null"@.len() != "false"@.len());
}

/// Law: the single argument `key=raw`, with a plain key (not starting with
/// `@`, without `=` or `.`), gives the object whose one entry maps the key to
/// the JSON value that `serde_json` reads from `raw`, for every such `raw`
/// other than `true`, `false` and `null` (a negative number among them).
pub proof fn lemma_key_value_argument(
    key: Seq<char>,
    raw: Seq<char>,
    v: JsonModel,
    file: Option<Seq<char>>,
)
    requires
        key.len() > 0,
        key[0] != '@',
        !key.contains('='),
        !key.contains('.'),
        raw != "true"@,
        raw != "false"@,
        raw != "null"@,
        spec_parse_json(raw) == Ok::<JsonModel, Seq<char>>(v),
    ensures
        spec_parse_arguments(seq![key + "="@ + raw], file) == Ok::<JsonModel, Seq<char>>(
            JsonModel::Object(seq![(key, v)]),
        ),
{
    reveal_strlit("=");
    reveal_strlit("--json");
    let w = key + "="@ + raw;
    let n = key.len() as int;
    assert(w[n] == '=');
    assert(w.take(n) =~= key);
    assert(w.skip(n + 1) =~= raw);
    crate::text::lemma_split_once_at(w, '=', n);
    assert(w != "--json"@) by {
        if w == "--json"@ {
            assert(w.len() == 6);
            assert(w[n] == "--json"@[n]);
        }
    }
    crate::text::lemma_split_on_none(key, '.');
    let parts = split_on(key, '.');
    assert(!has_empty_part(parts)) by {
        if has_empty_part(parts) {
            let i = choose|i: int| 0 <= i < parts.len() && #[trigger] parts[i].len() == 0;
            assert(parts[i] == key);
        }
    }
    let words = seq![w];
    assert(w[0] == key[0]);
    assert(words.drop_first() =~= Seq::<Seq<char>>::empty());
    assert(spec_parse_scalar(raw) == v);
    assert(spec_insert_path(Seq::empty(), parts, v) == Ok::<_, Seq<char>>(seq![(key, v)]));
    assert(spec_insert_dotted(Seq::empty(), key, v) == Ok::<_, Seq<char>>(seq![(key, v)]));
    assert(spec_key_values(seq![(key, v)], Seq::empty()) == Ok::<_, Seq<char>>(seq![(key, v)]));
    assert(spec_key_values(Seq::empty(), words) == Ok::<_, Seq<char>>(seq![(key, v)]));
}

/// A `key=value` word that is refused whatever came before it: an `@` word,
/// a word without `=`, an empty key, or a dotted key with an empty part.
pub open spec fn refused_word(w: Seq<char>) -> bool {
    ||| (w.len() > 0 && w[0] == '@')
    ||| split_once(w, '=') is None
    ||| (split_once(w, '=') matches Some(kv) && (kv.0.len() == 0 || has_empty_part(
        split_on(kv.0, '.'),
    )))
}

/// Law: `key=value` arguments that hold a refused word are refused.
pub proof fn lemma_key_values_refuse_word(es: Seq<(Seq<char>, JsonModel)>, words: Seq<Seq<char>>, i: int)
    requires
        0 <= i < words.len(),
        refused_word(words[i]),
    ensures
        spec_key_values(es, words) is Err,
    decreases i,
{
    if i > 0 {
        let w = words[0];
        if !(w.len() > 0 && w[0] == '@') {
            if let Some(kv) = split_once(w, '=') {
                if kv.0.len() > 0 {
                    if let Ok(es2) = spec_insert_dotted(es, kv.0, spec_parse_scalar(kv.1)) {
                        assert(words.drop_first()[i - 1] == words[i]);
                        lemma_key_values_refuse_word(es2, words.drop_first(), i - 1);
                    }
                }
            }
        }
    }
}

/// Law: tool arguments in `key=value` form that hold a refused word are
/// refused.
pub proof fn lemma_arguments_refuse_word(words: Seq<Seq<char>>, file: Option<Seq<char>>, i: int)
    requires
        words.len() > 0,
        words[0] != "--json"@,
        !(words.len() == 1 && words[0].len() > 0 && words[0][0] == '@'),
        0 <= i < words.len(),
        refused_word(words[i]),
    ensures
        spec_parse_arguments(words, file) is Err,
{
    lemma_key_values_refuse_word(Seq::empty(), words, i);
}

/// The REPL's commands, in the order the help lists them before sorting.
pub fn commands() -> (r: Vec<CommandSpec>)
    ensures
        r@.map_values(|c: CommandSpec| c.model()) == command_table(),
        r@.map_values(|c: CommandSpec| c.name@) == command_names(),
{
    let r = vec![
        CommandSpec {
            name: "help",
            aliases: &["?"],
            usage_hint: None,
            description: "Show this help",
        },
        CommandSpec {
            name: "info",
            aliases: &[],
            usage_hint: None,
            description: "Show server metadata and capabilities",
        },
        CommandSpec { name: "tools", aliases: &[], usage_hint: None, description: "List tools" },
        CommandSpec {
            name: "resources",
            aliases: &[],
            usage_hint: None,
            description: "List resources",
        },
        CommandSpec {
            name: "resource",
            aliases: &[],
            usage_hint: Some("resource RESOURCE"),
            description: "Show a resource's contents",
        },
        CommandSpec {
            name: "schema",
            aliases: &[],
            usage_hint: Some("schema TOOL"),
            description: "Pretty-print a tool input schema",
        },
        CommandSpec {
            name: "tool",
            aliases: &[],
            usage_hint: Some("tool TOOL [key=value ... | --json '{...}' | @file.json]"),
            description: "Call a tool with arguments specified as key=value pairs, raw JSON, or a JSON file.",
        },
        CommandSpec {
            name: "raw",
            aliases: &[],
            usage_hint: Some("raw METHOD [JSON]"),
            description: "Send a raw MCP request with optional JSON parameters.",
        },
        CommandSpec {
            name: "reload",
            aliases: &[],
            usage_hint: None,
            description: "Refresh tool metadata from the server.",
        },
        CommandSpec {
            name: "quit",
            aliases: &["exit"],
            usage_hint: None,
            description: "Close the session and exit the REPL.",
        },
    ];
    assert(r@.map_values(|c: CommandSpec| c.name@) =~= command_names());
    assert(r@[0].alias_views() =~= seq!["?"@]);
    assert(r@[1].alias_views() =~= Seq::<Seq<char>>::empty());
    assert(r@[9].alias_views() =~= seq!["exit"@]);
    assert(r@.map_values(|c: CommandSpec| c.model()) =~= command_table());
    r
}

/// Each command's name, aliases, usage hint and description.
pub open spec fn command_table() -> Seq<(Seq<char>, Seq<Seq<char>>, Option<Seq<char>>, Seq<char>)> {
    seq![
        ("help"@, seq!["?"@], None, "Show this help"@),
        ("info"@, seq![], None, "Show server metadata and capabilities"@),
        ("tools"@, seq![], None, "List tools"@),
        ("resources"@, seq![], None, "List resources"@),
        ("resource"@, seq![], Some("resource RESOURCE"@), "Show a resource's contents"@),
        ("schema"@, seq![], Some("schema TOOL"@), "Pretty-print a tool input schema"@),
        (
            "tool"@,
            seq![],
            Some("tool TOOL [key=value ... | --json '{...}' | @file.json]"@),
            "Call a tool with arguments specified as key=value pairs, raw JSON, or a JSON file."@,
        ),
        (
            "raw"@,
            seq![],
            Some("raw METHOD [JSON]"@),
            "Send a raw MCP request with optional JSON parameters."@,
        ),
        ("reload"@, seq![], None, "Refresh tool metadata from the server."@),
        ("quit"@, seq!["exit"@], None, "Close the session and exit the REPL."@),
    ]
}

/// The names of the REPL's commands.
pub open spec fn command_names() -> Seq<Seq<char>> {
    seq![
        "help"@,
        "info"@,
        "tools"@,
        "resources"@,
        "resource"@,
        "schema"@,
        "tool"@,
        "raw"@,
        "reload"@,
        "quit"@,
    ]
}

/// Each command's line in the help text, in table order.
pub open spec fn help_docs() -> Seq<Seq<char>> {
    command_table().map_values(
        |c: (Seq<char>, Seq<Seq<char>>, Option<Seq<char>>, Seq<char>)|
            doc_line(doc_entry(c.0, c.1, c.2), c.3),
    )
}

/// A command as the JSON help describes it.
pub open spec fn command_json(c: (Seq<char>, Seq<Seq<char>>, Option<Seq<char>>, Seq<char>)) -> JsonModel {
    JsonModel::Object(
        seq![
            ("aliases"@, JsonModel::Array(c.1.map_values(|a: Seq<char>| JsonModel::Str(a)))),
            ("description"@, JsonModel::Str(c.3)),
            ("name"@, JsonModel::Str(c.0)),
            ("usage_hint"@, JsonModel::Str(c.2.unwrap_or(Seq::empty()))),
        ],
    )
}

/// The JSON help: the commands in table order.
pub open spec fn help_json() -> JsonModel {
    JsonModel::Object(seq![("commands"@, JsonModel::Array(command_table().map_values(|c| command_json(c))))])
}

/// The plain help: a heading, then the commands' lines in string order, each
/// on a line of its own.
pub open spec fn help_listing(sorted_docs: Seq<Seq<char>>) -> Seq<char> {
    "Commands:\n"@ + join(sorted_docs, "\n"@) + "\n"@
}

/// Whether `text` is the help that `f` shows: the JSON help in JSON mode,
/// else the listing of the commands' lines in string order.
pub open spec fn is_help(f: Formatter, text: Seq<char>) -> bool {
    &&& f.json_output() ==> text == spec_json_pretty(help_json())
    &&& !f.json_output() ==> exists|sorted_docs: Seq<Seq<char>>|
        sorted_strings(sorted_docs) && sorted_docs.to_multiset() == help_docs().to_multiset() && text
            == help_listing(sorted_docs)
}

/// A command as JSON.
fn command_to_json(c: &CommandSpec) -> (r: Json)
    ensures
        r@ == command_json(c.model()),
{
    let mut aliases: Vec<Json> = Vec::new();
    let mut i: usize = 0;
    while i < c.aliases.len()
        invariant
            i <= c.aliases@.len(),
            crate::json::items_model(aliases@) == c.alias_views().take(i as int).map_values(
                |a: Seq<char>| JsonModel::Str(a),
            ),
        decreases c.aliases@.len() - i,
    {
        let ghost before = aliases@;
        let a = owned(c.aliases[i]);
        aliases.push(Json::Str(a));
        proof {
            assert(aliases@.drop_last() =~= before);
            assert(c.alias_views()[i as int] == a@);
            crate::json::lemma_items_model(aliases@);
            crate::json::lemma_items_model(before);
            assert(crate::json::items_model(aliases@) =~= crate::json::items_model(before).push(JsonModel::Str(a@)));
            assert(c.alias_views().take(i + 1).map_values(|a: Seq<char>| JsonModel::Str(a))
                =~= c.alias_views().take(i as int).map_values(|a: Seq<char>| JsonModel::Str(a)).push(
                JsonModel::Str(c.aliases@[i as int]@),
            ));
        }
        i = i + 1;
    }
    assert(c.alias_views().take(i as int) =~= c.alias_views());
    let hint = match c.usage_hint {
        Some(h) => owned(h),
        None => String::new(),
    };
    let mut entries: Vec<(String, Json)> = Vec::new();
    entries.push((owned("aliases"), Json::Array(aliases)));
    entries.push((owned("description"), Json::Str(owned(c.description))));
    entries.push((owned("name"), Json::Str(owned(c.name))));
    entries.push((owned("usage_hint"), Json::Str(hint)));
    proof {
        lemma_entries_model(entries@);
        assert(entries_model(entries@) =~= seq![
            ("aliases"@, JsonModel::Array(c.alias_views().map_values(|a: Seq<char>| JsonModel::Str(a)))),
            ("description"@, JsonModel::Str(c.description@)),
            ("name"@, JsonModel::Str(c.name@)),
            ("usage_hint"@, JsonModel::Str(c.hint_view().unwrap_or(Seq::empty()))),
        ]);
    }
    Json::Object(entries)
}

/// The REPL's help: the JSON description of its commands in JSON mode, else
/// a heading and each command's line, sorted as strings.
pub fn help_text(formatter: Formatter) -> (r: String)
    ensures
        is_help(formatter, r@),
{
    reveal(is_help);
    let table = commands();
    if formatter.json_mode() {
        let mut items: Vec<Json> = Vec::new();
        let mut i: usize = 0;
        while i < table.len()
            invariant
                i <= table@.len(),
                table@.map_values(|c: CommandSpec| c.model()) == command_table(),
                crate::json::items_model(items@) == command_table().map_values(|c| command_json(c)).take(i as int),
            decreases table@.len() - i,
        {
            let j = command_to_json(&table[i]);
            let ghost before = items@;
            items.push(j);
            proof {
                assert(items@.drop_last() =~= before);
                assert(table@.map_values(|c: CommandSpec| c.model())[i as int] == table@[i as int].model());
                assert(command_table().map_values(|c| command_json(c)).take(i + 1) =~= command_table().map_values(
                    |c| command_json(c),
                ).take(i as int).push(command_json(table@[i as int].model())));
            }
            i = i + 1;
        }
        assert(command_table().map_values(|c| command_json(c)).take(i as int) =~= command_table().map_values(
            |c| command_json(c),
        ));
        let mut entries: Vec<(String, Json)> = Vec::new();
        entries.push((owned("commands"), Json::Array(items)));
        proof {
            lemma_entries_model(entries@);
            assert(entries_model(entries@) =~= seq![
                ("commands"@, JsonModel::Array(command_table().map_values(|c| command_json(c)))),
            ]);
        }
        return formatter.json_value(&Json::Object(entries));
    }
    let mut docs: Vec<String> = Vec::new();
    let mut i: usize = 0;
    while i < table.len()
        invariant
            i <= table@.len(),
            table@.map_values(|c: CommandSpec| c.model()) == command_table(),
            views(docs@) == help_docs().take(i as int),
        decreases table@.len() - i,
    {
        let d = table[i].doc_string();
        proof {
            lemma_views_push(docs@, d);
            assert(table@.map_values(|c: CommandSpec| c.model())[i as int] == table@[i as int].model());
            assert(help_docs().take(i + 1) =~= help_docs().take(i as int).push(d@));
        }
        docs.push(d);
        i = i + 1;
    }
    assert(help_docs().take(i as int) =~= help_docs());
    let sorted = sort_strings(&docs);
    let mut out = owned("Commands:\n");
    out.append(join_strings(&sorted, "\n").as_str());
    out.append("\n");
    assert(out@ == help_listing(views(sorted@)));
    out
}

/// The keys of a schema's `properties` object, if it has one.
pub open spec fn schema_property_keys(schema: JsonModel) -> Seq<Seq<char>> {
    match schema {
        JsonModel::Object(es) => match lookup(es, "properties"@) {
            Some(JsonModel::Object(props)) => props.map_values(|e: (Seq<char>, JsonModel)| e.0),
            _ => Seq::empty(),
        },
        _ => Seq::empty(),
    }
}

/// The argument names that a tool's input schema declares: the keys of its
/// `properties` object, without repeats, in increasing order.
pub fn schema_arg_names(schema: &Json) -> (r: Vec<String>)
    ensures
        strictly_sorted(views(r@)),
        views(r@).to_set() == schema_property_keys(schema@).to_set(),
{
    let mut keys: Vec<String> = Vec::new();
    if let Json::Object(es) = schema {
        if let Some(Json::Object(props)) = object_get(es, "properties") {
            let mut i: usize = 0;
            proof {
                crate::json::lemma_entries_model(props@);
            }
            while i < props.len()
                invariant
                    i <= props.len(),
                    crate::json::entries_model(props@).len() == props@.len(),
                    forall|k: int| 0 <= k < props@.len() ==> #[trigger] crate::json::entries_model(props@)[k] == (props@[k].0@, props@[k].1@),
                    views(keys@) == crate::json::entries_model(props@).take(i as int).map_values(|e: (Seq<char>, JsonModel)| e.0),
                decreases props.len() - i,
            {
                let k = props[i].0.clone();
                proof {
                    lemma_views_push(keys@, k);
                }
                keys.push(k);
                assert(crate::json::entries_model(props@).take(i + 1).map_values(|e: (Seq<char>, JsonModel)| e.0) =~= crate::json::entries_model(props@).take(i as int).map_values(|e: (Seq<char>, JsonModel)| e.0).push(props@[i as int].0@));
                i = i + 1;
            }
            assert(crate::json::entries_model(props@).take(i as int) =~= crate::json::entries_model(props@));
        } else {
            assert(views(keys@) =~= schema_property_keys(schema@));
        }
    } else {
        assert(views(keys@) =~= schema_property_keys(schema@));
    }
    sorted_distinct(&keys)
}

/// What completion knows: the tools' names, each tool's argument names, and
/// the resources' URIs.
#[derive(Debug, Clone)]
pub struct CompletionState {
    tool_names: Vec<String>,
    tool_args: Vec<(String, Vec<String>)>,
    resource_uris: Vec<String>,
}

/// The mathematical value of a `CompletionState`.
pub struct CompletionModel {
    pub tool_names: Seq<Seq<char>>,
    pub tool_args: Seq<(Seq<char>, Seq<Seq<char>>)>,
    pub resource_uris: Seq<Seq<char>>,
}

impl View for CompletionState {
    type V = CompletionModel;

    closed spec fn view(&self) -> CompletionModel {
        CompletionModel {
            tool_names: views(self.tool_names@),
            tool_args: self.tool_args@.map_values(|e: (String, Vec<String>)| (e.0@, views(e.1@))),
            resource_uris: views(self.resource_uris@),
        }
    }
}

/// The argument names recorded for `tool`: those of the first entry with its
/// name, or none.
pub open spec fn arg_names_of(tool_args: Seq<(Seq<char>, Seq<Seq<char>>)>, tool: Seq<char>) -> Seq<Seq<char>>
    decreases tool_args.len(),
{
    if tool_args.len() == 0 {
        Seq::empty()
    } else if tool_args[0].0 == tool {
        tool_args[0].1
    } else {
        arg_names_of(tool_args.drop_first(), tool)
    }
}

impl CompletionState {
    /// The completion data for a server's tools and resources: the tool names
    /// and the resource URIs sorted, and each tool's argument names in the
    /// order of the tools.
    pub fn from_mcp_primitives(tools: &[ToolInfo], resources: &[ResourceInfo]) -> (r: Self)
        ensures
            sorted_strings(r@.tool_names),
            r@.tool_names.to_multiset() == tools@.map_values(|t: ToolInfo| t.name@).to_multiset(),
            r@.tool_args.len() == tools@.len(),
            forall|i: int| 0 <= i < tools@.len() ==> {
                &&& (#[trigger] r@.tool_args[i]).0 == tools@[i].name@
                &&& strictly_sorted(r@.tool_args[i].1)
                &&& r@.tool_args[i].1.to_set() == schema_property_keys(tools@[i].input_schema@).to_set()
            },
            sorted_strings(r@.resource_uris),
            r@.resource_uris.to_multiset() == resources@.map_values(|x: ResourceInfo| x.uri@).to_multiset(),
    {
        let mut names: Vec<String> = Vec::new();
        let mut tool_args: Vec<(String, Vec<String>)> = Vec::new();
        let mut i: usize = 0;
        while i < tools.len()
            invariant
                i <= tools@.len(),
                views(names@) == tools@.map_values(|t: ToolInfo| t.name@).take(i as int),
                tool_args@.len() == i,
                forall|k: int| 0 <= k < i ==> {
                    &&& (#[trigger] tool_args@[k]).0@ == tools@[k].name@
                    &&& strictly_sorted(views(tool_args@[k].1@))
                    &&& views(tool_args@[k].1@).to_set() == schema_property_keys(tools@[k].input_schema@).to_set()
                },
            decreases tools@.len() - i,
        {
            let n = tools[i].name.clone();
            proof {
                lemma_views_push(names@, n);
            }
            names.push(n);
            assert(tools@.map_values(|t: ToolInfo| t.name@).take(i + 1) =~= tools@.map_values(|t: ToolInfo| t.name@).take(i as int).push(tools@[i as int].name@));
            let args = schema_arg_names(&tools[i].input_schema);
            tool_args.push((tools[i].name.clone(), args));
            i = i + 1;
        }
        assert(tools@.map_values(|t: ToolInfo| t.name@).take(i as int) =~= tools@.map_values(|t: ToolInfo| t.name@));
        let mut uris: Vec<String> = Vec::new();
        let mut j: usize = 0;
        while j < resources.len()
            invariant
                j <= resources@.len(),
                views(uris@) == resources@.map_values(|x: ResourceInfo| x.uri@).take(j as int),
            decreases resources@.len() - j,
        {
            let u = resources[j].uri.clone();
            proof {
                lemma_views_push(uris@, u);
            }
            uris.push(u);
            assert(resources@.map_values(|x: ResourceInfo| x.uri@).take(j + 1) =~= resources@.map_values(|x: ResourceInfo| x.uri@).take(j as int).push(resources@[j as int].uri@));
            j = j + 1;
        }
        assert(resources@.map_values(|x: ResourceInfo| x.uri@).take(j as int) =~= resources@.map_values(|x: ResourceInfo| x.uri@));
        let r = CompletionState {
            tool_names: sort_strings(&names),
            tool_args,
            resource_uris: sort_strings(&uris),
        };
        assert forall|k: int| 0 <= k < tools@.len() implies {
            &&& (#[trigger] r@.tool_args[k]).0 == tools@[k].name@
            &&& strictly_sorted(r@.tool_args[k].1)
            &&& r@.tool_args[k].1.to_set() == schema_property_keys(tools@[k].input_schema@).to_set()
        } by {
            assert(r@.tool_args[k] == (r.tool_args@[k].0@, views(r.tool_args@[k].1@)));
        }
        r
    }

    /// The argument names recorded for `tool_name`.
    fn arg_names(&self, tool_name: &str) -> (r: Vec<String>)
        ensures
            views(r@) == arg_names_of(self@.tool_args, tool_name@),
    {
        let ghost ta = self@.tool_args;
        let mut i: usize = 0;
        assert(ta.skip(0) =~= ta);
        while i < self.tool_args.len()
            invariant
                i <= self.tool_args@.len(),
                ta == self@.tool_args,
                ta.len() == self.tool_args@.len(),
                arg_names_of(ta, tool_name@) == arg_names_of(ta.skip(i as int), tool_name@),
            decreases self.tool_args@.len() - i,
        {
            proof {
                let t = ta.skip(i as int);
                assert(t[0] == (self.tool_args@[i as int].0@, views(self.tool_args@[i as int].1@)));
                assert(t.drop_first() =~= ta.skip(i + 1));
            }
            if str_eq(self.tool_args[i].0.as_str(), tool_name) {
                let r = self.tool_args[i].1.clone();
                assert(views(r@) =~= views(self.tool_args@[i as int].1@));
                return r;
            }
            i = i + 1;
        }
        let r: Vec<String> = Vec::new();
        assert(views(r@) =~= Seq::<Seq<char>>::empty());
        r
    }
}

/// `items` that begin with `prefix`, in order.
pub open spec fn with_prefix(items: Seq<Seq<char>>, prefix: Seq<char>) -> Seq<Seq<char>> {
    items.filter(|s: Seq<char>| has_prefix(s, prefix))
}

/// Each argument name with `=` after it.
pub open spec fn assignments(args: Seq<Seq<char>>) -> Seq<Seq<char>> {
    args.map_values(|a: Seq<char>| a + "="@)
}

/// Whether the text ends in whitespace.
pub open spec fn ends_in_space(s: Seq<char>) -> bool {
    s.len() > 0 && is_ws(s.last())
}

/// The completions for the text before the cursor.
pub open spec fn spec_suggestions(st: CompletionModel, prefix: Seq<char>) -> Seq<Seq<char>> {
    let words = match spec_shlex_split(prefix) {
        Some(w) => w,
        None => Seq::empty(),
    };
    let ends = ends_in_space(prefix);
    if words.len() == 0 {
        command_names()
    } else if words.len() == 1 && !ends {
        with_prefix(command_names(), words[0])
    } else if words.len() == 1 && words[0] == "tool"@ {
        st.tool_names
    } else if words.len() == 2 && words[0] == "tool"@ && !ends {
        with_prefix(st.tool_names, words[1])
    } else if words.len() == 3 && words[0] == "tool"@ && !ends {
        with_prefix(assignments(arg_names_of(st.tool_args, words[1])), words[2])
    } else if words.len() >= 2 && words[0] == "tool"@ {
        assignments(arg_names_of(st.tool_args, words[1]))
    } else if words.len() == 1 && words[0] == "resource"@ {
        st.resource_uris
    } else if words.len() == 2 && words[0] == "resource"@ && !ends {
        with_prefix(st.resource_uris, words[1])
    } else if words.len() == 1 && words[0] == "schema"@ {
        st.tool_names
    } else if words.len() == 2 && words[0] == "schema"@ && !ends {
        with_prefix(st.tool_names, words[1])
    } else {
        Seq::empty()
    }
}

/// The items kept by `with_prefix` begin with the prefix.
proof fn lemma_with_prefix(items: Seq<Seq<char>>, prefix: Seq<char>)
    ensures
        forall|i: int|
            0 <= i < with_prefix(items, prefix).len() ==> has_prefix(
                #[trigger] with_prefix(items, prefix)[i],
                prefix,
            ),
{
    broadcast use vstd::seq_lib::group_filter_ensures;

}

/// Law: where the word before the cursor is being typed, every completion
/// begins with it; the one exception is a `tool` line with more than two
/// arguments, which offers all of the tool's argument names.
pub proof fn lemma_completions_extend_word(st: CompletionModel, prefix: Seq<char>)
    requires
        !ends_in_space(prefix),
        spec_shlex_split(prefix) matches Some(words) && words.len() > 0 && !(words[0] == "tool"@
            && words.len() >= 4),
    ensures
        forall|i: int|
            0 <= i < spec_suggestions(st, prefix).len() ==> has_prefix(
                #[trigger] spec_suggestions(st, prefix)[i],
                spec_shlex_split(prefix)->Some_0.last(),
            ),
{
    let words = spec_shlex_split(prefix)->Some_0;
    let w = words.last();
    lemma_with_prefix(command_names(), w);
    lemma_with_prefix(st.tool_names, w);
    lemma_with_prefix(st.resource_uris, w);
    if words.len() >= 2 {
        lemma_with_prefix(assignments(arg_names_of(st.tool_args, words[1])), w);
    }
}

/// Law: filtering by a prefix keeps every item that begins with it, an item
/// equal to the prefix among them, and keeps nothing else.
pub proof fn lemma_with_prefix_keeps(items: Seq<Seq<char>>, prefix: Seq<char>)
    ensures
        forall|i: int|
            0 <= i < items.len() && has_prefix(items[i], prefix) ==> #[trigger] with_prefix(
                items,
                prefix,
            ).contains(items[i]),
        forall|s: Seq<char>|
            #[trigger] with_prefix(items, prefix).contains(s) ==> items.contains(s) && has_prefix(
                s,
                prefix,
            ),
        with_prefix(items, prefix).len() <= items.len(),
{
    broadcast use vstd::seq_lib::group_filter_ensures;

    assert forall|i: int|
        0 <= i < items.len() && has_prefix(items[i], prefix) implies #[trigger] with_prefix(
            items,
            prefix,
        ).contains(items[i]) by {
        items.lemma_filter_contains(|s: Seq<char>| has_prefix(s, prefix), i);
    }
    assert forall|s: Seq<char>| #[trigger] with_prefix(items, prefix).contains(s) implies items.contains(s)
        && has_prefix(s, prefix) by {
        let f = with_prefix(items, prefix);
        let j = choose|j: int| 0 <= j < f.len() && f[j] == s;
        assert(has_prefix(f[j], prefix));
        items.lemma_filter_contains_rev(|s: Seq<char>| has_prefix(s, prefix), s);
    }
}

/// Law: filtering by a prefix walks the items in order: nothing of nothing,
/// and the first item, where it begins with the prefix, ahead of what the
/// rest give.
pub proof fn lemma_with_prefix_in_order(items: Seq<Seq<char>>, prefix: Seq<char>)
    ensures
        items.len() == 0 ==> with_prefix(items, prefix) == Seq::<Seq<char>>::empty(),
        items.len() > 0 ==> with_prefix(items, prefix) == (if has_prefix(items[0], prefix) {
            seq![items[0]]
        } else {
            Seq::<Seq<char>>::empty()
        }) + with_prefix(items.drop_first(), prefix),
{
    let pred = |s: Seq<char>| has_prefix(s, prefix);
    reveal(Seq::filter);
    if items.len() > 0 {
        let head = seq![items[0]];
        assert(items =~= head + items.drop_first());
        Seq::filter_distributes_over_add(head, items.drop_first(), pred);
        assert(head.drop_last() =~= Seq::<Seq<char>>::empty());
        assert(head.filter(pred) == Seq::<Seq<char>>::empty().filter(pred) + (if pred(items[0]) {
            seq![items[0]]
        } else {
            Seq::<Seq<char>>::empty()
        })) by {
            reveal(Seq::filter);
        }
        assert(Seq::<Seq<char>>::empty().filter(pred) =~= Seq::<Seq<char>>::empty());
    }
}

/// Law: where the word before the cursor is being typed, every candidate of
/// that position that begins with it is offered, a candidate equal to the word
/// among them: command names for the first word, tool names after `tool` and
/// `schema`, resource URIs after `resource`, and the tool's `name=` argument
/// words after `tool NAME`.
pub proof fn lemma_completions_complete(
    st: CompletionModel,
    prefix: Seq<char>,
    words: Seq<Seq<char>>,
    i: int,
)
    requires
        !ends_in_space(prefix),
        spec_shlex_split(prefix) == Some(words),
    ensures
        words.len() == 1 && 0 <= i < command_names().len() && has_prefix(
            command_names()[i],
            words[0],
        ) ==> spec_suggestions(st, prefix).contains(command_names()[i]),
        words.len() == 2 && (words[0] == "tool"@ || words[0] == "schema"@) && 0 <= i
            < st.tool_names.len() && has_prefix(st.tool_names[i], words[1])
            ==> spec_suggestions(st, prefix).contains(st.tool_names[i]),
        words.len() == 2 && words[0] == "resource"@ && 0 <= i < st.resource_uris.len()
            && has_prefix(st.resource_uris[i], words[1]) ==> spec_suggestions(st, prefix).contains(
            st.resource_uris[i],
        ),
        words.len() == 3 && words[0] == "tool"@ && 0 <= i < assignments(
            arg_names_of(st.tool_args, words[1]),
        ).len() && has_prefix(assignments(arg_names_of(st.tool_args, words[1]))[i], words[2])
            ==> spec_suggestions(st, prefix).contains(
            assignments(arg_names_of(st.tool_args, words[1]))[i],
        ),
{
    lemma_other_commands_differ_from_tool();
    reveal_strlit("schema");
    reveal_strlit("resource");
    assert("schema"@.len() != "resource"@.len());
    lemma_with_prefix_keeps(command_names(), if words.len() > 0 { words[0] } else { Seq::empty() });
    if words.len() >= 2 {
        lemma_with_prefix_keeps(st.tool_names, words[1]);
        lemma_with_prefix_keeps(st.resource_uris, words[1]);
    }
    if words.len() >= 3 {
        lemma_with_prefix_keeps(assignments(arg_names_of(st.tool_args, words[1])), words[2]);
    }
}

/// The strings of `items` that begin with `prefix`.
fn filter_prefix(items: &Vec<String>, prefix: &str) -> (r: Vec<String>)
    ensures
        views(r@) == with_prefix(views(items@), prefix@),
{
    let ghost vs = views(items@);
    let mut r: Vec<String> = Vec::new();
    let mut i: usize = 0;
    proof {
        reveal(Seq::filter);
        assert(vs.take(0) =~= Seq::<Seq<char>>::empty());
    }
    while i < items.len()
        invariant
            i <= items@.len(),
            vs == views(items@),
            views(r@) == with_prefix(vs.take(i as int), prefix@),
        decreases items@.len() - i,
    {
        proof {
            reveal(Seq::filter);
            assert(vs.take(i + 1).drop_last() =~= vs.take(i as int));
            assert(vs.take(i + 1).last() == items@[i as int]@);
        }
        if starts_with(items[i].as_str(), prefix) {
            let x = items[i].clone();
            proof {
                lemma_views_push(r@, x);
            }
            r.push(x);
        }
        i = i + 1;
    }
    assert(vs.take(i as int) =~= vs);
    r
}

/// Each string of `args` with `=` after it.
fn with_equals(args: Vec<String>) -> (r: Vec<String>)
    ensures
        views(r@) == assignments(views(args@)),
{
    let mut r: Vec<String> = Vec::new();
    let mut i: usize = 0;
    while i < args.len()
        invariant
            i <= args@.len(),
            views(r@) == assignments(views(args@)).take(i as int),
        decreases args@.len() - i,
    {
        let x = concat(args[i].as_str(), "=");
        proof {
            lemma_views_push(r@, x);
            assert(assignments(views(args@)).take(i + 1) =~= assignments(views(args@)).take(i as int).push(x@));
        }
        r.push(x);
        i = i + 1;
    }
    assert(assignments(views(args@)).take(i as int) =~= assignments(views(args@)));
    r
}

/// Tab completion for the REPL line: command names, tool names, tool
/// argument names and resource URIs.
#[derive(Debug, Clone)]
pub struct InspectorCompleter {
    state: CompletionState,
    command_set: Vec<String>,
}

impl InspectorCompleter {
    /// A completer over `state`.
    pub fn new(state: CompletionState) -> (r: Self)
        ensures
            r.state() == state@,
            r.known_commands() == command_names(),
    {
        let specs = commands();
        let mut names: Vec<String> = Vec::new();
        let mut i: usize = 0;
        while i < specs.len()
            invariant
                i <= specs@.len(),
                specs@.map_values(|c: CommandSpec| c.name@) == command_names(),
                views(names@) == command_names().take(i as int),
            decreases specs@.len() - i,
        {
            let n = owned(specs[i].name);
            proof {
                lemma_views_push(names@, n);
                assert(specs@.map_values(|c: CommandSpec| c.name@)[i as int] == specs@[i as int].name@);
                assert(command_names().take(i + 1) =~= command_names().take(i as int).push(n@));
            }
            names.push(n);
            i = i + 1;
        }
        assert(command_names().take(i as int) =~= command_names());
        InspectorCompleter { state, command_set: names }
    }

    /// The completion data this completer draws on.
    pub closed spec fn state(&self) -> CompletionModel {
        self.state@
    }

    /// The command names this completer knows.
    pub closed spec fn known_commands(&self) -> Seq<Seq<char>> {
        views(self.command_set@)
    }

    /// The completions for `prefix_line`, the text of the line before the
    /// cursor.
    pub fn suggestions_for(&self, prefix_line: &str) -> (r: Vec<String>)
        ensures
            views(r@) == spec_suggestions(self.state(), prefix_line@),
    {
        let words = match shell_words(prefix_line) {
            Some(w) => w,
            None => Vec::new(),
        };
        let ghost ws = views(words@);
        assert(ws =~= match spec_shlex_split(prefix_line@) {
            Some(w) => w,
            None => Seq::<Seq<char>>::empty(),
        });
        let n = prefix_line.unicode_len();
        let ends_with_space = n > 0 && is_whitespace(prefix_line.get_char(n - 1));
        let st = &self.state;
        if words.len() == 0 {
            let specs = commands();
            let mut r: Vec<String> = Vec::new();
            let mut i: usize = 0;
            while i < specs.len()
                invariant
                    i <= specs@.len(),
                    specs@.map_values(|c: CommandSpec| c.name@) == command_names(),
                    views(r@) == command_names().take(i as int),
                decreases specs@.len() - i,
            {
                let x = owned(specs[i].name);
                proof {
                    lemma_views_push(r@, x);
                    assert(command_names().take(i + 1) =~= command_names().take(i as int).push(x@));
                }
                r.push(x);
                i = i + 1;
            }
            assert(command_names().take(i as int) =~= command_names());
            return r;
        }
        assert(ws[0] == words@[0]@);
        let first = words[0].as_str();
        if words.len() == 1 && !ends_with_space {
            let mut names: Vec<String> = Vec::new();
            let specs = commands();
            let mut i: usize = 0;
            while i < specs.len()
                invariant
                    i <= specs@.len(),
                    specs@.map_values(|c: CommandSpec| c.name@) == command_names(),
                    views(names@) == command_names().take(i as int),
                decreases specs@.len() - i,
            {
                let x = owned(specs[i].name);
                proof {
                    lemma_views_push(names@, x);
                    assert(command_names().take(i + 1) =~= command_names().take(i as int).push(x@));
                }
                names.push(x);
                i = i + 1;
            }
            assert(command_names().take(i as int) =~= command_names());
            return filter_prefix(&names, first);
        }
        let is_tool = str_eq(first, "tool");
        let is_resource = str_eq(first, "resource");
        let is_schema = str_eq(first, "schema");
        proof {
            if words.len() >= 2 {
                assert(ws[1] == words@[1]@);
            }
            if words.len() >= 3 {
                assert(ws[2] == words@[2]@);
            }
        }
        if words.len() == 1 && is_tool {
            let r = st.tool_names.clone();
            assert(views(r@) =~= views(st.tool_names@));
            return r;
        }
        if words.len() == 2 && is_tool && !ends_with_space {
            return filter_prefix(&st.tool_names, words[1].as_str());
        }
        if words.len() == 3 && is_tool && !ends_with_space {
            let args = with_equals(st.arg_names(words[1].as_str()));
            return filter_prefix(&args, words[2].as_str());
        }
        if words.len() >= 2 && is_tool {
            return with_equals(st.arg_names(words[1].as_str()));
        }
        if words.len() == 1 && is_resource {
            let r = st.resource_uris.clone();
            assert(views(r@) =~= views(st.resource_uris@));
            return r;
        }
        if words.len() == 2 && is_resource && !ends_with_space {
            return filter_prefix(&st.resource_uris, words[1].as_str());
        }
        if words.len() == 1 && is_schema {
            let r = st.tool_names.clone();
            assert(views(r@) =~= views(st.tool_names@));
            return r;
        }
        if words.len() == 2 && is_schema && !ends_with_space {
            return filter_prefix(&st.tool_names, words[1].as_str());
        }
        let r: Vec<String> = Vec::new();
        assert(views(r@) =~= Seq::<Seq<char>>::empty());
        if words.len() == 1 && ends_with_space && self.command_set_contains(first) {
            return r;
        }
        r
    }

    /// Whether `name` is the name of a command this completer knows.
    fn command_set_contains(&self, name: &str) -> (r: bool)
        ensures
            r == self.known_commands().contains(name@),
    {
        let mut i: usize = 0;
        while i < self.command_set.len()
            invariant
                i <= self.command_set@.len(),
                forall|k: int| 0 <= k < i ==> #[trigger] self.command_set@[k]@ != name@,
            decreases self.command_set@.len() - i,
        {
            if str_eq(self.command_set[i].as_str(), name) {
                assert(self.known_commands()[i as int] == name@);
                return true;
            }
            i = i + 1;
        }
        assert forall|k: int| 0 <= k < self.known_commands().len() implies #[trigger] self.known_commands()[k]
            != name@ by {
            assert(self.known_commands()[k] == self.command_set@[k]@);
        }
        false
    }
}

/// The largest position at most `k` that falls between characters of
/// `bytes` (0 at the least).
pub open spec fn boundary_at_or_before(bytes: Seq<u8>, k: int) -> int
    decreases k,
{
    if k <= 0 {
        0
    } else if vstd::utf8::is_char_boundary(bytes, k) {
        k
    } else {
        boundary_at_or_before(bytes, k - 1)
    }
}

/// The text of `line` before the cursor at byte offset `pos`: cut at `pos`,
/// or at the end of the line where `pos` lies beyond it, and moved back to
/// the nearest place between characters.
pub fn cursor_prefix(line: &str, pos: usize) -> (r: String)
    ensures
        vstd::utf8::encode_utf8(r@) == line.spec_bytes().subrange(
            0,
            boundary_at_or_before(
                line.spec_bytes(),
                if (pos as int) < (line.len() as int) {
                    pos as int
                } else {
                    line.len() as int
                },
            ),
        ),
{
    broadcast use vstd::utf8::encode_utf8_valid_utf8, vstd::utf8::is_char_boundary_start_end_of_seq;

    let len = line.len();
    let start: usize = if pos < len {
        pos
    } else {
        len
    };
    let mut end = start;
    while end > 0 && !line.is_char_boundary(end)
        invariant
            end <= start,
            boundary_at_or_before(line.spec_bytes(), start as int) == boundary_at_or_before(
                line.spec_bytes(),
                end as int,
            ),
        decreases end,
    {
        end = end - 1;
    }
    assert(vstd::utf8::valid_utf8(line.spec_bytes()));
    assert(vstd::utf8::is_char_boundary(line.spec_bytes(), end as int));
    assert(boundary_at_or_before(line.spec_bytes(), end as int) == end);
    let (before, _) = line.split_at(end);
    let r = owned(before);
    assert(vstd::utf8::encode_utf8(r@) == before.spec_bytes());
    r
}

/// The index of the last whitespace character of `s`, if any.
pub open spec fn last_ws(s: Seq<char>) -> Option<nat>
    decreases s.len(),
{
    if s.len() == 0 {
        None
    } else if is_ws(s.last()) {
        Some((s.len() - 1) as nat)
    } else {
        last_ws(s.drop_last())
    }
}

/// Where the word being completed starts, as a byte offset into the text
/// before the cursor: just after its last whitespace character, or 0.
pub open spec fn spec_completion_start(prefix: Seq<char>) -> nat {
    match last_ws(prefix) {
        Some(k) => vstd::utf8::encode_utf8(prefix.take(k as int + 1)).len(),
        None => 0,
    }
}

/// The UTF-8 bytes of a text are those of its first `n` characters followed
/// by those of the rest.
proof fn lemma_encode_split(s: Seq<char>, n: int)
    requires
        0 <= n <= s.len(),
    ensures
        vstd::utf8::encode_utf8(s) == vstd::utf8::encode_utf8(s.take(n)) + vstd::utf8::encode_utf8(
            s.skip(n),
        ),
    decreases n,
{
    if n == 0 {
        assert(s.take(0) =~= Seq::<char>::empty());
        assert(s.skip(0) =~= s);
        assert(vstd::utf8::encode_utf8(s.take(0)) =~= Seq::<u8>::empty());
        assert(vstd::utf8::encode_utf8(s) =~= Seq::<u8>::empty() + vstd::utf8::encode_utf8(s));
    } else {
        let d = s.drop_first();
        lemma_encode_split(d, n - 1);
        assert(s.take(n).drop_first() =~= d.take(n - 1));
        assert(s.take(n)[0] == s[0]);
        assert(d.skip(n - 1) =~= s.skip(n));
        assert(vstd::utf8::encode_utf8(s) =~= vstd::utf8::encode_utf8(s.take(n))
            + vstd::utf8::encode_utf8(s.skip(n)));
    }
}

/// `last_ws` points at a character of the text.
proof fn lemma_last_ws_in(s: Seq<char>)
    ensures
        last_ws(s) matches Some(k) ==> k < s.len(),
    decreases s.len(),
{
    if s.len() > 0 {
        lemma_last_ws_in(s.drop_last());
    }
}

/// Law: the word being completed starts within the text before the cursor.
pub proof fn lemma_completion_start_within(prefix: Seq<char>)
    ensures
        spec_completion_start(prefix) <= vstd::utf8::encode_utf8(prefix).len(),
{
    lemma_last_ws_in(prefix);
    if let Some(k) = last_ws(prefix) {
        lemma_encode_split(prefix, (k + 1) as int);
    }
}

/// The byte offset in `prefix_line`, the text of the line before the cursor,
/// at which the word being completed starts.
pub fn completion_start(prefix_line: &str) -> (r: usize)
    ensures
        r == spec_completion_start(prefix_line@) as usize,
{
    let n = prefix_line.unicode_len();
    let mut k = n;
    assert(prefix_line@.take(n as int) =~= prefix_line@);
    while k > 0 && !is_whitespace(prefix_line.get_char(k - 1))
        invariant
            k <= n,
            n == prefix_line@.len(),
            last_ws(prefix_line@) == last_ws(prefix_line@.take(k as int)),
        decreases k,
    {
        assert(prefix_line@.take(k as int).drop_last() =~= prefix_line@.take(k - 1));
        k = k - 1;
    }
    if k == 0 {
        assert(prefix_line@.take(0).len() == 0);
        return 0;
    }
    assert(prefix_line@.take(k as int).last() == prefix_line@[k - 1]);
    assert(last_ws(prefix_line@.take(k as int)) == Some((k - 1) as nat));
    assert(prefix_line@.take(k - 1 + 1) =~= prefix_line@.take(k as int));
    let head = prefix_line.substring_char(0, k);
    assert(head@ =~= prefix_line@.take(k as int));
    head.len()
}

} // verus!
