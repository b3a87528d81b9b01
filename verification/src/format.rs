//! Rendering of server metadata, tools, resources and tool results for the
//! terminal, in color or plain, or as JSON.
use vstd::prelude::*;
use crate::mcp::{
    ContentItem, ContentModel, ResourceBody, ResourceBodyModel, ResourceInfo, ResourceModel,
    ServerIntro, ServerIntroModel, ToolCallModel, ToolCallResult, ToolInfo, ToolModel,
};
use crate::json::{
    items_model, entries_model, json_pretty, lemma_entries_model, lookup, object_get, parse_json,
    spec_json_pretty, spec_parse_json, Json, JsonModel,
};
use crate::text::{
    concat, decimal, decimal_string, join, join_strings, lemma_views_push,
    owned, pad_right, push_char, starts_with_char, trim, trim_str, views,
};

verus! {

/// How output is rendered: with ANSI colors or plain, and as JSON where a
/// command supports it.
#[derive(Debug, Clone, Copy)]
pub struct Formatter {
    color: bool,
    json: bool,
}

/// The styles that output uses.
#[derive(Debug, Clone, Copy)]
pub enum TextStyle {
    /// Bold red.
    Error,
    /// Bold cyan.
    Accent,
    /// Bold purple.
    Label,
    /// Dimmed.
    Dim,
}

/// The ANSI escape sequence that opens a style.
pub open spec fn ansi_prefix(style: TextStyle) -> Seq<char> {
    match style {
        TextStyle::Error => seq!['\x1b', '[', '1', ';', '3', '1', 'm'],
        TextStyle::Accent => seq!['\x1b', '[', '1', ';', '3', '6', 'm'],
        TextStyle::Label => seq!['\x1b', '[', '1', ';', '3', '5', 'm'],
        TextStyle::Dim => seq!['\x1b', '[', '2', 'm'],
    }
}

/// The ANSI escape sequence that resets all styles.
pub open spec fn ansi_reset() -> Seq<char> {
    seq!['\x1b', '[', '0', 'm']
}

/// `message` painted in `style` with `nu_ansi_term`: a style that is not plain
/// writes its opening codes (bold first, then the foreground color) before
/// the text and the reset code after it.
#[verifier::external_body]
fn paint(style: TextStyle, message: &str) -> (r: String)
    ensures
        r@ == ansi_prefix(style) + message@ + ansi_reset(),
{
    let style = match style {
        TextStyle::Error => nu_ansi_term::Style::new().fg(nu_ansi_term::Color::Red).bold(),
        TextStyle::Accent => nu_ansi_term::Style::new().fg(nu_ansi_term::Color::Cyan).bold(),
        TextStyle::Label => nu_ansi_term::Style::new().fg(nu_ansi_term::Color::Purple).bold(),
        TextStyle::Dim => nu_ansi_term::Style::new().dimmed(),
    };
    style.paint(message).to_string()
}

/// The number of bytes of the UTF-8 encoding of `s`, as `str::len` gives it.
pub open spec fn byte_len(s: Seq<char>) -> usize {
    vstd::utf8::encode_utf8(s).len() as usize
}

/// The line terminator.
pub open spec fn nl() -> Seq<char> {
    seq!['\n']
}

impl Formatter {
    /// Whether output is colored.
    pub closed spec fn colored(self) -> bool {
        self.color
    }

    /// Whether output is JSON where a command supports it.
    pub closed spec fn json_output(self) -> bool {
        self.json
    }

    /// `message` in `style` where output is colored, else as it is.
    pub open spec fn styled(self, style: TextStyle, message: Seq<char>) -> Seq<char> {
        if self.colored() {
            ansi_prefix(style) + message + ansi_reset()
        } else {
            message
        }
    }

    /// A formatter that colors output or not, and writes JSON or not.
    pub fn new(color: bool, json: bool) -> (r: Self)
        ensures
            r.colored() == color,
            r.json_output() == json,
    {
        Formatter { color, json }
    }

    /// Whether output is JSON where a command supports it.
    pub fn json_mode(&self) -> (r: bool)
        ensures
            r == self.json_output(),
    {
        self.json
    }

    /// `message` in `style` where output is colored.
    fn style(&self, style: TextStyle, message: &str) -> (r: String)
        ensures
            r@ == self.styled(style, message@),
    {
        if self.color {
            paint(style, message)
        } else {
            owned(message)
        }
    }

    /// `message` styled as an error.
    pub fn error(&self, message: &str) -> (r: String)
        ensures
            r@ == self.styled(TextStyle::Error, message@),
    {
        self.style(TextStyle::Error, message)
    }

    /// `message` styled as an accent.
    pub fn accent(&self, message: &str) -> (r: String)
        ensures
            r@ == self.styled(TextStyle::Accent, message@),
    {
        self.style(TextStyle::Accent, message)
    }

    /// `message` styled as a label.
    pub fn label(&self, message: &str) -> (r: String)
        ensures
            r@ == self.styled(TextStyle::Label, message@),
    {
        self.style(TextStyle::Label, message)
    }

    /// `message` dimmed.
    pub fn dim(&self, message: &str) -> (r: String)
        ensures
            r@ == self.styled(TextStyle::Dim, message@),
    {
        self.style(TextStyle::Dim, message)
    }

    /// `value` as pretty-printed JSON.
    pub fn json_value(&self, value: &Json) -> (r: String)
        ensures
            r@ == spec_json_pretty(value@),
    {
        json_pretty(value)
    }

    /// The width of a name column: the widest item, or `min` where there is
    /// none, kept within `min` and `max` (4 and 36 where not given).
    fn width(&self, item_widths: &Vec<usize>, min: Option<usize>, max: Option<usize>) -> (r: usize)
        requires
            min.unwrap_or(4) <= max.unwrap_or(36),
        ensures
            r == spec_width(item_widths@, min.unwrap_or(4), max.unwrap_or(36)),
    {
        let min = match min {
            Some(m) => m,
            None => 4,
        };
        let max = match max {
            Some(m) => m,
            None => 36,
        };
        let mut widest = min;
        let mut i: usize = 0;
        while i < item_widths.len()
            invariant
                i <= item_widths@.len(),
                widest == max_or(item_widths@.take(i as int), min),
            decreases item_widths@.len() - i,
        {
            proof {
                assert(item_widths@.take(i + 1).drop_last() =~= item_widths@.take(i as int));
            }
            if i == 0 || item_widths[i] > widest {
                widest = item_widths[i];
            }
            i = i + 1;
        }
        assert(item_widths@.take(i as int) =~= item_widths@);
        if widest < min {
            min
        } else if widest > max {
            max
        } else {
            widest
        }
    }
}

/// The largest of `s`, or `default` where `s` is empty.
pub open spec fn max_or(s: Seq<usize>, default: usize) -> usize
    decreases s.len(),
{
    if s.len() == 0 {
        default
    } else if s.len() == 1 {
        s[0]
    } else {
        let m = max_or(s.drop_last(), default);
        if s.last() > m {
            s.last()
        } else {
            m
        }
    }
}

/// The widest of `widths` (or `min`), kept within `min` and `max`.
pub open spec fn spec_width(widths: Seq<usize>, min: usize, max: usize) -> usize {
    let w = max_or(widths, min);
    if w < min {
        min
    } else if w > max {
        max
    } else {
        w
    }
}

/// How many more bytes a styled string has than its plain text, or 0.
pub open spec fn spec_ansi_extra(styled: Seq<char>, plain_len: usize) -> usize {
    if byte_len(styled) >= plain_len {
        (byte_len(styled) - plain_len) as usize
    } else {
        0
    }
}

/// How many more bytes `styled` has than `plain_len`, or 0.
fn ansi_extra(styled: &str, plain_len: usize) -> (r: usize)
    ensures
        r == spec_ansi_extra(styled@, plain_len),
{
    let n = styled.len();
    if n >= plain_len {
        n - plain_len
    } else {
        0
    }
}

/// The type that a property's schema names: its `type` string, else the
/// first `type` string among its `anyOf` items, else `value`.
pub open spec fn property_type(schema: JsonModel) -> Seq<char> {
    match schema {
        JsonModel::Object(es) => match lookup(es, "type"@) {
            Some(JsonModel::Str(t)) => t,
            _ => match lookup(es, "anyOf"@) {
                Some(JsonModel::Array(items)) => match first_item_type(items) {
                    Some(t) => t,
                    None => "value"@,
                },
                _ => "value"@,
            },
        },
        _ => "value"@,
    }
}

/// The `type` string of an `anyOf` item, if it has one.
pub open spec fn item_type(item: JsonModel) -> Option<Seq<char>> {
    match item {
        JsonModel::Object(es) => match lookup(es, "type"@) {
            Some(JsonModel::Str(t)) => Some(t),
            _ => None,
        },
        _ => None,
    }
}

/// The first `type` string among `items`.
pub open spec fn first_item_type(items: Seq<JsonModel>) -> Option<Seq<char>>
    decreases items.len(),
{
    if items.len() == 0 {
        None
    } else {
        match item_type(items[0]) {
            Some(t) => Some(t),
            None => first_item_type(items.drop_first()),
        }
    }
}

/// Each property's name and type, in key order.
pub open spec fn spec_schema_properties(props: Seq<(Seq<char>, JsonModel)>) -> Seq<
    (Seq<char>, Seq<char>),
> {
    props.map_values(|e: (Seq<char>, JsonModel)| (e.0, property_type(e.1)))
}

/// Whether a schema's `required` list holds `name`.
pub open spec fn is_required(required: Option<JsonModel>, name: Seq<char>) -> bool {
    match required {
        Some(JsonModel::Array(items)) => exists|i: int|
            0 <= i < items.len() && items[i] == JsonModel::Str(name),
        _ => false,
    }
}

/// A property as the summary shows it: its name, `?` where it is optional,
/// `:` and its type.
pub open spec fn summary_part(required: Option<JsonModel>, p: (Seq<char>, Seq<char>)) -> Seq<char> {
    p.0 + (if is_required(required, p.0) {
        Seq::empty()
    } else {
        "?"@
    }) + ":"@ + p.1
}

/// A one-line summary of a tool's input schema: its properties in
/// parentheses, or nothing where it has none.
pub open spec fn spec_schema_summary(value: JsonModel) -> Seq<char> {
    match value {
        JsonModel::Object(es) => {
            let props = match lookup(es, "properties"@) {
                Some(JsonModel::Object(p)) => spec_schema_properties(p),
                _ => Seq::empty(),
            };
            if props.len() == 0 {
                Seq::empty()
            } else {
                let required = lookup(es, "required"@);
                "("@ + join(
                    props.map_values(|p: (Seq<char>, Seq<char>)| summary_part(required, p)),
                    ", "@,
                ) + ")"@
            }
        },
        _ => Seq::empty(),
    }
}

/// The `type` string of an `anyOf` item.
fn item_type_of(item: &Json) -> (r: Option<String>)
    ensures
        opt_seq(r) == item_type(item@),
{
    if let Json::Object(es) = item {
        if let Some(Json::Str(t)) = object_get(es, "type") {
            return Some(t.clone());
        }
    }
    None
}

/// The view of an optional string.
pub open spec fn opt_seq(o: Option<String>) -> Option<Seq<char>> {
    match o {
        Some(s) => Some(s@),
        None => None,
    }
}

/// The type that a property's schema names.
fn property_type_of(schema: &Json) -> (r: String)
    ensures
        r@ == property_type(schema@),
{
    if let Json::Object(es) = schema {
        if let Some(Json::Str(t)) = object_get(es, "type") {
            return t.clone();
        }
        if let Some(Json::Array(items)) = object_get(es, "anyOf") {
            let ghost ms = crate::json::items_model(items@);
            proof {
                crate::json::lemma_items_model(items@);
                assert(ms.skip(0) =~= ms);
            }
            let ghost want = property_type(schema@);
            assert(want == match first_item_type(ms) {
                Some(t) => t,
                None => "value"@,
            });
            let mut i: usize = 0;
            while i < items.len()
                invariant
                    i <= items@.len(),
                    want == property_type(schema@),
                    want == match first_item_type(ms) {
                        Some(t) => t,
                        None => "value"@,
                    },
                    ms == crate::json::items_model(items@),
                    ms.len() == items@.len(),
                    forall|k: int| 0 <= k < items@.len() ==> #[trigger] ms[k] == items@[k]@,
                    first_item_type(ms) == first_item_type(ms.skip(i as int)),
                decreases items@.len() - i,
            {
                proof {
                    let t = ms.skip(i as int);
                    assert(t[0] == items@[i as int]@);
                    assert(t.drop_first() =~= ms.skip(i + 1));
                }
                if let Some(t) = item_type_of(&items[i]) {
                    proof {
                        let rest = ms.skip(i as int);
                        assert(rest[0] == items@[i as int]@);
                        assert(first_item_type(rest) == Some(t@));
                    }
                    return t;
                }
                i = i + 1;
            }
            assert(ms.skip(i as int).len() == 0);
        }
    }
    owned("value")
}

/// Each property's name and type, in key order.
fn schema_properties(properties: &Vec<(String, Json)>) -> (r: Vec<(String, String)>)
    ensures
        r@.map_values(|e: (String, String)| (e.0@, e.1@)) == spec_schema_properties(
            entries_model(properties@),
        ),
{
    let ghost es = entries_model(properties@);
    proof {
        lemma_entries_model(properties@);
    }
    let mut r: Vec<(String, String)> = Vec::new();
    let mut i: usize = 0;
    while i < properties.len()
        invariant
            i <= properties@.len(),
            es == entries_model(properties@),
            es.len() == properties@.len(),
            forall|k: int| 0 <= k < properties@.len() ==> #[trigger] es[k] == (properties@[k].0@, properties@[k].1@),
            r@.map_values(|e: (String, String)| (e.0@, e.1@)) == spec_schema_properties(es).take(i as int),
        decreases properties@.len() - i,
    {
        let ty = property_type_of(&properties[i].1);
        let ghost before = r@;
        r.push((properties[i].0.clone(), ty));
        proof {
            assert(r@.drop_last() =~= before);
            assert(spec_schema_properties(es).take(i + 1) =~= spec_schema_properties(es).take(i as int).push(spec_schema_properties(es)[i as int]));
            assert(r@.map_values(|e: (String, String)| (e.0@, e.1@)) =~= before.map_values(|e: (String, String)| (e.0@, e.1@)).push((properties@[i as int].0@, property_type(properties@[i as int].1@))));
        }
        i = i + 1;
    }
    assert(spec_schema_properties(es).take(i as int) =~= spec_schema_properties(es));
    r
}

/// Whether the `required` list of a schema holds `name`.
fn required_has(required: Option<&Json>, name: &str) -> (r: bool)
    ensures
        r == is_required(
            match required {
                Some(j) => Some(j@),
                None => None,
            },
            name@,
        ),
{
    if let Some(Json::Array(items)) = required {
        proof {
            crate::json::lemma_items_model(items@);
        }
        let mut i: usize = 0;
        while i < items.len()
            invariant
                i <= items@.len(),
                required matches Some(j) && j@ == JsonModel::Array(crate::json::items_model(items@)),
                crate::json::items_model(items@).len() == items@.len(),
                forall|k: int| 0 <= k < items@.len() ==> #[trigger] crate::json::items_model(items@)[k] == items@[k]@,
                forall|k: int| 0 <= k < i ==> crate::json::items_model(items@)[k] != JsonModel::Str(name@),
            decreases items@.len() - i,
        {
            if let Json::Str(s) = &items[i] {
                if crate::text::str_eq(s.as_str(), name) {
                    assert(crate::json::items_model(items@)[i as int] == JsonModel::Str(name@));
                    return true;
                }
            }
            i = i + 1;
        }
        false
    } else {
        false
    }
}

/// A one-line summary of a tool's input schema.
pub fn schema_summary(value: &Json) -> (r: String)
    ensures
        r@ == spec_schema_summary(value@),
{
    let es = match value {
        Json::Object(es) => es,
        _ => {
            return String::new();
        },
    };
    let required = object_get(es, "required");
    let properties = match object_get(es, "properties") {
        Some(Json::Object(p)) => schema_properties(p),
        _ => Vec::new(),
    };
    let ghost props = properties@.map_values(|e: (String, String)| (e.0@, e.1@));
    if properties.len() == 0 {
        return String::new();
    }
    let ghost req = match required {
        Some(j) => Some(j@),
        None => None,
    };
    let mut parts: Vec<String> = Vec::new();
    let mut i: usize = 0;
    while i < properties.len()
        invariant
            i <= properties@.len(),
            props == properties@.map_values(|e: (String, String)| (e.0@, e.1@)),
            req == match required {
                Some(j) => Some(j@),
                None => None,
            },
            views(parts@) == props.map_values(|p: (Seq<char>, Seq<char>)| summary_part(req, p)).take(i as int),
        decreases properties@.len() - i,
    {
        let name = properties[i].0.as_str();
        let mut part = owned(name);
        if !required_has(required, name) {
            part.append("?");
        }
        part.append(":");
        part.append(properties[i].1.as_str());
        proof {
            lemma_views_push(parts@, part);
            let all = props.map_values(|p: (Seq<char>, Seq<char>)| summary_part(req, p));
            assert(all.take(i + 1) =~= all.take(i as int).push(all[i as int]));
            assert(part@ =~= summary_part(req, props[i as int]));
        }
        parts.push(part);
        i = i + 1;
    }
    assert(props.map_values(|p: (Seq<char>, Seq<char>)| summary_part(req, p)).take(i as int) =~= props.map_values(|p: (Seq<char>, Seq<char>)| summary_part(req, p)));
    let mut out = owned("(");
    let joined = join_strings(&parts, ", ");
    out.append(joined.as_str());
    out.append(")");
    out
}

/// Text as output shows it: where it looks like JSON (it starts with `{` or
/// `[` once trimmed) and parses, pretty-printed; otherwise as it is; then a
/// line break.
pub open spec fn spec_text_or_json(text: Seq<char>) -> Seq<char> {
    let t = trim(text);
    if t.len() > 0 && (t[0] == '{' || t[0] == '[') {
        match spec_parse_json(t) {
            Ok(v) => spec_json_pretty(v) + nl(),
            Err(_) => text + nl(),
        }
    } else {
        text + nl()
    }
}

/// Text as output shows it, pretty-printed where it is JSON.
fn format_text_or_json(text: &str) -> (r: String)
    ensures
        r@ == spec_text_or_json(text@),
{
    proof {
        reveal_strlit("\n");
    }
    let trimmed = trim_str(text);
    if starts_with_char(trimmed.as_str(), '{') || starts_with_char(trimmed.as_str(), '[') {
        if let Ok(value) = parse_json(trimmed.as_str()) {
            let mut out = json_pretty(&value);
            out.append("\n");
            return out;
        }
    }
    let mut out = owned(text);
    out.append("\n");
    out
}

/// Appends `count` spaces to `r`.
fn push_spaces(r: &mut String, count: usize)
    ensures
        final(r)@ == old(r)@ + Seq::new(count as nat, |i: int| ' '),
{
    let ghost start = r@;
    let mut k: usize = 0;
    while k < count
        invariant
            k <= count,
            r@ == start + Seq::new(k as nat, |i: int| ' '),
        decreases count - k,
    {
        push_char(r, ' ');
        k = k + 1;
        assert(r@ =~= start + Seq::new(k as nat, |i: int| ' '));
    }
}

/// `s` padded with spaces on the right to `width + extra` characters.
fn pad_wide(s: &str, width: usize, extra: usize) -> (r: String)
    ensures
        r@ == pad_right(s@, (width + extra) as nat),
{
    let mut r = owned(s);
    let n = s.unicode_len();
    if n >= extra {
        let used = n - extra;
        if used < width {
            push_spaces(&mut r, width - used);
        }
    } else {
        push_spaces(&mut r, width);
        let ghost mid = r@;
        push_spaces(&mut r, extra - n);
        assert(r@ =~= s@ + Seq::new((width + extra - n) as nat, |i: int| ' '));
    }
    r
}

/// The name column and the rest of a listing line: `name` accented and
/// padded to `width` visible columns, two spaces, then `rest`.
pub open spec fn listing_line(f: Formatter, name: Seq<char>, width: usize, rest: Seq<char>) -> Seq<
    char,
> {
    let acc = f.styled(TextStyle::Accent, name);
    pad_right(acc, (width + spec_ansi_extra(acc, byte_len(name))) as nat) + "  "@ + rest
}

/// What a listing shows of a tool: its description (or nothing), a space and
/// the dimmed summary of its input schema.
pub open spec fn tool_rest(f: Formatter, t: ToolModel) -> Seq<char> {
    t.description.unwrap_or(Seq::empty()) + " "@ + f.styled(TextStyle::Dim, spec_schema_summary(t.input_schema))
        + nl()
}

/// What a listing shows of a resource: its description (or nothing).
pub open spec fn resource_rest(r: ResourceModel) -> Seq<char> {
    r.description.unwrap_or(Seq::empty()) + nl()
}

/// The tool listing.
pub open spec fn spec_tools(f: Formatter, tools: Seq<ToolModel>) -> Seq<char> {
    if f.json_output() {
        spec_json_pretty(JsonModel::Array(tools.map_values(|t: ToolModel| t.json)))
    } else if tools.len() == 0 {
        "No tools advertised by this server.\n"@
    } else {
        let width = spec_width(tools.map_values(|t: ToolModel| byte_len(t.name)), 4, 36);
        tools.map_values(|t: ToolModel| listing_line(f, t.name, width, tool_rest(f, t))).flatten_alt()
    }
}

/// The resource listing.
pub open spec fn spec_resources(f: Formatter, resources: Seq<ResourceModel>) -> Seq<char> {
    if f.json_output() {
        spec_json_pretty(JsonModel::Array(resources.map_values(|r: ResourceModel| r.json)))
    } else if resources.len() == 0 {
        "No resources advertised by this server.\n"@
    } else {
        let width = spec_width(resources.map_values(|r: ResourceModel| byte_len(r.uri)), 4, 36);
        resources.map_values(|r: ResourceModel| listing_line(f, r.uri, width, resource_rest(r))).flatten_alt()
    }
}

impl Formatter {
    /// A listing line: `name` accented and padded to `width`, then `rest`.
    fn listing_line(&self, name: &str, width: usize, rest: &str) -> (r: String)
        ensures
            r@ == listing_line(*self, name@, width, rest@),
    {
        let acc = self.accent(name);
        let extra = ansi_extra(acc.as_str(), name.len());
        let mut line = pad_wide(acc.as_str(), width, extra);
        line.append("  ");
        line.append(rest);
        line
    }

    /// The tools a server advertises, one per line with their descriptions
    /// and input summaries, or as a JSON array.
    pub fn tools(&self, tools: &[ToolInfo]) -> (r: String)
        ensures
            r@ == spec_tools(*self, tools@.map_values(|t: ToolInfo| t@)),
    {
        let ghost ms = tools@.map_values(|t: ToolInfo| t@);
        if self.json {
            let mut items: Vec<Json> = Vec::new();
            let mut i: usize = 0;
            while i < tools.len()
                invariant
                    i <= tools@.len(),
                    ms == tools@.map_values(|t: ToolInfo| t@),
                    items_model(items@) == ms.map_values(|t: ToolModel| t.json).take(i as int),
                decreases tools@.len() - i,
            {
                let j = tools[i].json.deep_clone();
                let ghost before = items@;
                items.push(j);
                proof {
                    assert(items@.drop_last() =~= before);
                    assert(ms.map_values(|t: ToolModel| t.json).take(i + 1) =~= ms.map_values(
                        |t: ToolModel| t.json,
                    ).take(i as int).push(tools@[i as int].json@));
                }
                i = i + 1;
            }
            assert(ms.map_values(|t: ToolModel| t.json).take(i as int) =~= ms.map_values(
                |t: ToolModel| t.json,
            ));
            return self.json_value(&Json::Array(items));
        }
        if tools.len() == 0 {
            proof {
                reveal_strlit("No tools advertised by this server.\n");
            }
            return owned("No tools advertised by this server.\n");
        }
        let mut widths: Vec<usize> = Vec::new();
        let mut i: usize = 0;
        while i < tools.len()
            invariant
                i <= tools@.len(),
                ms == tools@.map_values(|t: ToolInfo| t@),
                widths@ == ms.map_values(|t: ToolModel| byte_len(t.name)).take(i as int),
            decreases tools@.len() - i,
        {
            widths.push(tools[i].name.as_str().len());
            assert(ms.map_values(|t: ToolModel| byte_len(t.name)).take(i + 1) =~= ms.map_values(
                |t: ToolModel| byte_len(t.name),
            ).take(i as int).push(byte_len(tools@[i as int].name@)));
            i = i + 1;
        }
        assert(ms.map_values(|t: ToolModel| byte_len(t.name)).take(i as int) =~= ms.map_values(
            |t: ToolModel| byte_len(t.name),
        ));
        let width = self.width(&widths, None, None);
        let ghost lines = ms.map_values(|t: ToolModel| listing_line(*self, t.name, width, tool_rest(*self, t)));
        let mut out = String::new();
        let mut i: usize = 0;
        while i < tools.len()
            invariant
                i <= tools@.len(),
                ms == tools@.map_values(|t: ToolInfo| t@),
                lines == ms.map_values(|t: ToolModel| listing_line(*self, t.name, width, tool_rest(*self, t))),
                out@ == lines.take(i as int).flatten_alt(),
            decreases tools@.len() - i,
        {
            let tool = &tools[i];
            let description = match &tool.description {
                Some(d) => d.as_str(),
                None => "",
            };
            let mut rest = owned(description);
            rest.append(" ");
            let summary = schema_summary(&tool.input_schema);
            rest.append(self.dim(summary.as_str()).as_str());
            rest.append("\n");
            proof {
                reveal_strlit("\n");
                reveal_strlit("");
                assert(rest@ == tool_rest(*self, tool@));
            }
            let line = self.listing_line(tool.name.as_str(), width, rest.as_str());
            out.append(line.as_str());
            proof {
                assert(lines.take(i + 1).drop_last() =~= lines.take(i as int));
            }
            i = i + 1;
        }
        assert(lines.take(i as int) =~= lines);
        out
    }

    /// The resources a server advertises, one per line with their
    /// descriptions, or as a JSON array.
    pub fn resources(&self, resources: &[ResourceInfo]) -> (r: String)
        ensures
            r@ == spec_resources(*self, resources@.map_values(|x: ResourceInfo| x@)),
    {
        let ghost ms = resources@.map_values(|x: ResourceInfo| x@);
        if self.json {
            let mut items: Vec<Json> = Vec::new();
            let mut i: usize = 0;
            while i < resources.len()
                invariant
                    i <= resources@.len(),
                    ms == resources@.map_values(|x: ResourceInfo| x@),
                    items_model(items@) == ms.map_values(|x: ResourceModel| x.json).take(i as int),
                decreases resources@.len() - i,
            {
                let j = resources[i].json.deep_clone();
                let ghost before = items@;
                items.push(j);
                proof {
                    assert(items@.drop_last() =~= before);
                    assert(ms.map_values(|x: ResourceModel| x.json).take(i + 1) =~= ms.map_values(
                        |x: ResourceModel| x.json,
                    ).take(i as int).push(resources@[i as int].json@));
                }
                i = i + 1;
            }
            assert(ms.map_values(|x: ResourceModel| x.json).take(i as int) =~= ms.map_values(
                |x: ResourceModel| x.json,
            ));
            return self.json_value(&Json::Array(items));
        }
        if resources.len() == 0 {
            proof {
                reveal_strlit("No resources advertised by this server.\n");
            }
            return owned("No resources advertised by this server.\n");
        }
        let mut widths: Vec<usize> = Vec::new();
        let mut i: usize = 0;
        while i < resources.len()
            invariant
                i <= resources@.len(),
                ms == resources@.map_values(|x: ResourceInfo| x@),
                widths@ == ms.map_values(|x: ResourceModel| byte_len(x.uri)).take(i as int),
            decreases resources@.len() - i,
        {
            widths.push(resources[i].uri.as_str().len());
            assert(ms.map_values(|x: ResourceModel| byte_len(x.uri)).take(i + 1) =~= ms.map_values(
                |x: ResourceModel| byte_len(x.uri),
            ).take(i as int).push(byte_len(resources@[i as int].uri@)));
            i = i + 1;
        }
        assert(ms.map_values(|x: ResourceModel| byte_len(x.uri)).take(i as int) =~= ms.map_values(
            |x: ResourceModel| byte_len(x.uri),
        ));
        let width = self.width(&widths, None, None);
        let ghost lines = ms.map_values(|x: ResourceModel| listing_line(*self, x.uri, width, resource_rest(x)));
        let mut out = String::new();
        let mut i: usize = 0;
        while i < resources.len()
            invariant
                i <= resources@.len(),
                ms == resources@.map_values(|x: ResourceInfo| x@),
                lines == ms.map_values(|x: ResourceModel| listing_line(*self, x.uri, width, resource_rest(x))),
                out@ == lines.take(i as int).flatten_alt(),
            decreases resources@.len() - i,
        {
            let resource = &resources[i];
            let description = match &resource.description {
                Some(d) => d.as_str(),
                None => "",
            };
            let mut rest = owned(description);
            rest.append("\n");
            proof {
                reveal_strlit("\n");
                reveal_strlit("");
                assert(rest@ == resource_rest(resource@));
            }
            let line = self.listing_line(resource.uri.as_str(), width, rest.as_str());
            out.append(line.as_str());
            proof {
                assert(lines.take(i + 1).drop_last() =~= lines.take(i as int));
            }
            i = i + 1;
        }
        assert(lines.take(i as int) =~= lines);
        out
    }

    /// A tool's input schema as pretty-printed JSON.
    pub fn schema(&self, tool: &ToolInfo) -> (r: String)
        ensures
            r@ == spec_json_pretty(tool.input_schema@),
    {
        self.json_value(&tool.input_schema)
    }

    /// Everything a server said of itself when the session started, as
    /// pretty-printed JSON.
    pub fn server_info(&self, info: &ServerIntro) -> (r: String)
        ensures
            r@ == spec_json_pretty(info.json@),
    {
        self.json_value(&info.json)
    }
}

/// A resource's contents as output shows them: a header line with its URI
/// and MIME type, then its text (pretty-printed where it is JSON) or the size
/// of its base64 blob.
pub open spec fn spec_resource(f: Formatter, b: ResourceBodyModel) -> Seq<char> {
    match b {
        ResourceBodyModel::Text { uri, mime_type, text } => f.styled(TextStyle::Label, "resource"@)
            + " "@ + uri + " "@ + f.styled(TextStyle::Dim, mime_type.unwrap_or("text"@)) + nl()
            + spec_text_or_json(text),
        ResourceBodyModel::Blob { uri, mime_type, blob } => f.styled(TextStyle::Label, "resource"@)
            + " "@ + uri + " "@ + f.styled(TextStyle::Dim, mime_type.unwrap_or("blob"@)) + " "@
            + decimal(byte_len(blob) as nat) + " bytes base64\n"@,
    }
}

/// A link to a resource as output shows it.
pub open spec fn spec_resource_link(f: Formatter, uri: Seq<char>, mime_type: Option<Seq<char>>) -> Seq<
    char,
> {
    f.styled(TextStyle::Label, "resource link"@) + " "@ + uri + " "@ + f.styled(
        TextStyle::Dim,
        mime_type.unwrap_or(Seq::empty()),
    ) + nl()
}

/// One item of a tool call's content as output shows it.
pub open spec fn spec_content(f: Formatter, c: ContentModel) -> Seq<char> {
    match c {
        ContentModel::Text(t) => spec_text_or_json(t),
        ContentModel::Image(d) => f.styled(TextStyle::Label, "image"@) + " "@ + decimal(
            byte_len(d) as nat,
        ) + " bytes base64\n"@,
        ContentModel::Audio(d) => f.styled(TextStyle::Label, "audio"@) + " "@ + decimal(
            byte_len(d) as nat,
        ) + " bytes base64\n"@,
        ContentModel::Resource(b) => spec_resource(f, b),
        ContentModel::ResourceLink { uri, mime_type } => spec_resource_link(f, uri, mime_type),
    }
}

/// Item `i` of `n` content items: under a `content[i]` label where there is
/// more than one.
pub open spec fn content_block(f: Formatter, n: nat, i: int, c: ContentModel) -> Seq<char> {
    (if n > 1 {
        f.styled(TextStyle::Label, "content["@ + decimal(i as nat) + "]"@) + nl()
    } else {
        Seq::empty()
    }) + spec_content(f, c)
}

/// A tool call's result as output shows it: a line that flags an error
/// result, the structured content under its label, then each content item;
/// `(empty result)` where there is neither structured content nor content.
pub open spec fn spec_tool_result(f: Formatter, r: ToolCallModel) -> Seq<char> {
    if f.json_output() {
        spec_json_pretty(r.json)
    } else {
        let head = (if r.is_error == Some(true) {
            f.styled(TextStyle::Error, "tool returned an error result"@) + nl()
        } else {
            Seq::empty()
        }) + (match r.structured_content {
            Some(s) => f.styled(TextStyle::Label, "structured"@) + nl() + spec_json_pretty(s) + nl(),
            None => Seq::empty(),
        });
        if r.content.len() == 0 {
            head + (if r.structured_content is None {
                "(empty result)\n"@
            } else {
                Seq::empty()
            })
        } else {
            head + Seq::new(
                r.content.len(),
                |i: int| content_block(f, r.content.len(), i, r.content[i]),
            ).flatten_alt()
        }
    }
}

/// The greeting shown when a session starts: the server's name and version,
/// the protocol version and how many tools it has; or those as a JSON object.
pub open spec fn spec_server_intro(f: Formatter, info: ServerIntroModel, tool_count: usize) -> Seq<char> {
    if f.json_output() {
        spec_json_pretty(
            JsonModel::Object(
                seq![
                    ("capabilities"@, info.capabilities),
                    ("protocolVersion"@, info.protocol_version),
                    ("server"@, info.server),
                    ("toolCount"@, JsonModel::Number(decimal(tool_count as nat))),
                ],
            ),
        )
    } else {
        f.styled(TextStyle::Accent, "connected"@) + " "@ + info.name + " "@ + f.styled(
            TextStyle::Dim,
            "v"@ + info.version,
        ) + nl() + f.styled(TextStyle::Label, "protocol"@) + " "@ + spec_json_pretty(
            info.protocol_version,
        ) + nl() + f.styled(TextStyle::Label, "tools"@) + " "@ + decimal(tool_count as nat) + nl()
    }
}

/// Every content item renders as a non-empty text that ends in a line break.
pub proof fn lemma_content_ends_in_newline(f: Formatter, c: ContentModel)
    ensures
        spec_content(f, c).len() > 0,
        spec_content(f, c).last() == '\n',
{
    reveal_strlit(" bytes base64\n");
    reveal_strlit("\n");
}

/// Law: text whose trimmed form starts with `{` or `[` (a JSON object or an
/// array alike) and that `serde_json` reads as `v` is shown as `v`
/// pretty-printed and a line break, as a text content item and as the body of
/// a text resource under its header; other text is shown as it is.
pub proof fn lemma_json_text_is_pretty(
    f: Formatter,
    text: Seq<char>,
    v: JsonModel,
    uri: Seq<char>,
    mime_type: Option<Seq<char>>,
)
    requires
        trim(text).len() > 0,
        trim(text)[0] == '{' || trim(text)[0] == '[',
        spec_parse_json(trim(text)) == Ok::<JsonModel, Seq<char>>(v),
    ensures
        spec_text_or_json(text) == spec_json_pretty(v) + nl(),
        spec_content(f, ContentModel::Text(text)) == spec_json_pretty(v) + nl(),
        spec_resource(f, ResourceBodyModel::Text { uri, mime_type, text }) == f.styled(
            TextStyle::Label,
            "resource"@,
        ) + " "@ + uri + " "@ + f.styled(TextStyle::Dim, mime_type.unwrap_or("text"@)) + nl()
            + spec_json_pretty(v) + nl(),
{
}

/// Law: text whose trimmed form does not start with `{` or `[`, or that
/// `serde_json` refuses, is shown as it is, then a line break.
pub proof fn lemma_plain_text_as_is(text: Seq<char>)
    requires
        !(trim(text).len() > 0 && (trim(text)[0] == '{' || trim(text)[0] == '['))
            || spec_parse_json(trim(text)) is Err,
    ensures
        spec_text_or_json(text) == text + nl(),
{
}

/// Law: a property is shown without the optional marker exactly when some
/// string of the schema's `required` array equals its name, wherever in the
/// array it stands; otherwise, and where `required` is missing or not an
/// array, its name is followed by `?`.
pub proof fn lemma_required_marker(
    required: Option<JsonModel>,
    name: Seq<char>,
    ty: Seq<char>,
    j: int,
)
    ensures
        (required matches Some(JsonModel::Array(items)) && 0 <= j < items.len() && items[j]
            == JsonModel::Str(name)) ==> summary_part(required, (name, ty)) == name + ":"@ + ty,
        (required matches Some(JsonModel::Array(items)) && forall|k: int|
            0 <= k < items.len() ==> items[k] != JsonModel::Str(name)) ==> summary_part(
            required,
            (name, ty),
        ) == name + "?"@ + ":"@ + ty,
        !(required matches Some(JsonModel::Array(_))) ==> summary_part(required, (name, ty))
            == name + "?"@ + ":"@ + ty,
{
    assert(name + Seq::<char>::empty() =~= name);
}

/// Law: a result without content items shows `(empty result)` exactly when
/// it has no structured content either; with structured content it shows the
/// error line where the result is flagged as an error, then the structured
/// content, and nothing after it.
pub proof fn lemma_empty_result_marker(f: Formatter, r: ToolCallModel)
    requires
        !f.json_output(),
        r.content.len() == 0,
    ensures
        r.structured_content matches Some(s) ==> spec_tool_result(f, r) == (if r.is_error == Some(
            true,
        ) {
            f.styled(TextStyle::Error, "tool returned an error result"@) + nl()
        } else {
            Seq::empty()
        }) + f.styled(TextStyle::Label, "structured"@) + nl() + spec_json_pretty(s) + nl(),
        r.structured_content is None ==> spec_tool_result(f, r) == (if r.is_error == Some(true) {
            f.styled(TextStyle::Error, "tool returned an error result"@) + nl()
        } else {
            Seq::empty()
        }) + "(empty result)\n"@,
{
    let e: Seq<char> = if r.is_error == Some(true) {
        f.styled(TextStyle::Error, "tool returned an error result"@) + nl()
    } else {
        Seq::empty()
    };
    if let Some(s) = r.structured_content {
        let st = f.styled(TextStyle::Label, "structured"@) + nl() + spec_json_pretty(s) + nl();
        assert(e + st + Seq::<char>::empty() =~= e + f.styled(TextStyle::Label, "structured"@)
            + nl() + spec_json_pretty(s) + nl());
    } else {
        assert(e + Seq::<char>::empty() =~= e);
    }
}

/// Law: a result with content items ends with its last item as that item is
/// shown on its own; nothing, `(empty result)` included, comes after it.
pub proof fn lemma_result_ends_with_last_item(f: Formatter, r: ToolCallModel)
    requires
        !f.json_output(),
        r.content.len() > 0,
    ensures
        ({
            let out = spec_tool_result(f, r);
            let last = spec_content(f, r.content.last());
            last.len() <= out.len() && out.subrange(out.len() - last.len(), out.len() as int)
                == last
        }),
{
    let n = r.content.len();
    let blocks = Seq::new(n, |i: int| content_block(f, n, i, r.content[i]));
    let head = (if r.is_error == Some(true) {
        f.styled(TextStyle::Error, "tool returned an error result"@) + nl()
    } else {
        Seq::empty()
    }) + (match r.structured_content {
        Some(s) => f.styled(TextStyle::Label, "structured"@) + nl() + spec_json_pretty(s) + nl(),
        None => Seq::empty(),
    });
    let label: Seq<char> = if n > 1 {
        f.styled(TextStyle::Label, "content["@ + decimal((n - 1) as nat) + "]"@) + nl()
    } else {
        Seq::empty()
    };
    let last = spec_content(f, r.content.last());
    assert(blocks.last() == label + last);
    let before = head + blocks.drop_last().flatten_alt() + label;
    assert(spec_tool_result(f, r) =~= before + last);
    assert((before + last).subrange(before.len() as int, (before + last).len() as int) =~= last);
}

/// Whether the last character of `s` is `c`.
fn ends_with_char(s: &str, c: char) -> (r: bool)
    ensures
        r == (s@.len() > 0 && s@.last() == c),
{
    let n = s.unicode_len();
    n > 0 && s.get_char(n - 1) == c
}

impl Formatter {
    /// A resource's contents.
    pub fn resource(&self, resource: &ResourceBody) -> (r: String)
        ensures
            r@ == spec_resource(*self, resource@),
    {
        proof {
            reveal_strlit("\n");
        }
        match resource {
            ResourceBody::Text { uri, mime_type, text } => {
                let mut out = self.label("resource");
                out.append(" ");
                out.append(uri.as_str());
                out.append(" ");
                let mime = match mime_type {
                    Some(m) => m.as_str(),
                    None => "text",
                };
                out.append(self.dim(mime).as_str());
                out.append("\n");
                out.append(format_text_or_json(text.as_str()).as_str());
                out
            },
            ResourceBody::Blob { uri, mime_type, blob } => {
                let mut out = self.label("resource");
                out.append(" ");
                out.append(uri.as_str());
                out.append(" ");
                let mime = match mime_type {
                    Some(m) => m.as_str(),
                    None => "blob",
                };
                out.append(self.dim(mime).as_str());
                out.append(" ");
                out.append(decimal_string(blob.as_str().len()).as_str());
                out.append(" bytes base64\n");
                out
            },
        }
    }

    /// A link to a resource.
    fn resource_link(&self, uri: &str, mime_type: &Option<String>) -> (r: String)
        ensures
            r@ == spec_resource_link(*self, uri@, opt_seq(*mime_type)),
    {
        proof {
            reveal_strlit("\n");
            reveal_strlit("");
        }
        let mut out = self.label("resource link");
        out.append(" ");
        out.append(uri);
        out.append(" ");
        let mime = match mime_type {
            Some(m) => m.as_str(),
            None => "",
        };
        out.append(self.dim(mime).as_str());
        out.append("\n");
        out
    }

    /// The size line of base64 media data under `label`.
    fn media(&self, label: &str, data: &str) -> (r: String)
        ensures
            r@ == self.styled(TextStyle::Label, label@) + " "@ + decimal(byte_len(data@) as nat)
                + " bytes base64\n"@,
    {
        let mut out = self.label(label);
        out.append(" ");
        out.append(decimal_string(data.len()).as_str());
        out.append(" bytes base64\n");
        out
    }

    /// One item of a tool call's content.
    fn content(&self, content: &ContentItem) -> (r: String)
        ensures
            r@ == spec_content(*self, content@),
    {
        match content {
            ContentItem::Text(text) => format_text_or_json(text.as_str()),
            ContentItem::Image(data) => self.media("image", data.as_str()),
            ContentItem::Audio(data) => self.media("audio", data.as_str()),
            ContentItem::Resource(body) => self.resource(body),
            ContentItem::ResourceLink { uri, mime_type } => self.resource_link(uri.as_str(), mime_type),
        }
    }

    /// The result of a tool call, or its JSON form.
    pub fn tool_result(&self, result: &ToolCallResult) -> (r: String)
        ensures
            r@ == spec_tool_result(*self, result@),
    {
        if self.json {
            return self.json_value(&result.json);
        }
        proof {
            reveal_strlit("\n");
        }
        let mut output = String::new();
        if result.is_error == Some(true) {
            output.append(self.error("tool returned an error result").as_str());
            output.append("\n");
        }
        if let Some(structured) = &result.structured_content {
            output.append(self.label("structured").as_str());
            output.append("\n");
            output.append(self.json_value(structured).as_str());
            output.append("\n");
        }
        let ghost head = output@;
        let n = result.content.len();
        if n == 0 {
            if result.structured_content.is_none() {
                output.append("(empty result)\n");
            }
            return output;
        }
        let ghost cs = result@.content;
        let ghost blocks = Seq::new(cs.len(), |i: int| content_block(*self, cs.len(), i, cs[i]));
        let mut index: usize = 0;
        while index < n
            invariant
                n == result.content@.len(),
                index <= n,
                cs == result@.content,
                cs.len() == n,
                blocks == Seq::new(cs.len(), |i: int| content_block(*self, cs.len(), i, cs[i])),
                output@ == head + blocks.take(index as int).flatten_alt(),
            decreases n - index,
        {
            let ghost before = output@;
            proof {
                reveal_strlit("\n");
            }
            if n > 1 {
                let mut name = owned("content[");
                name.append(decimal_string(index).as_str());
                name.append("]");
                output.append(self.label(name.as_str()).as_str());
                output.append("\n");
            }
            let ghost labelled = output@;
            assert(labelled =~= before + (if n > 1 {
                self.styled(TextStyle::Label, "content["@ + decimal(index as nat) + "]"@) + nl()
            } else {
                Seq::empty()
            }));
            let item = self.content(&result.content[index]);
            output.append(item.as_str());
            proof {
                assert(cs[index as int] == result.content@[index as int]@);
                lemma_content_ends_in_newline(*self, cs[index as int]);
            }
            assert(output@ == labelled + item@);
            assert(item@.len() > 0 && item@.last() == '\n');
            if !ends_with_char(output.as_str(), '\n') {
                push_char(&mut output, '\n');
            }
            proof {
                assert(output@ == labelled + item@);
                assert(blocks[index as int] == content_block(*self, n as nat, index as int, cs[index as int]));
                assert(blocks.take(index + 1).drop_last() =~= blocks.take(index as int));
                assert(output@ =~= before + blocks[index as int]);
            }
            index = index + 1;
        }
        assert(blocks.take(n as int) =~= blocks);
        output
    }

    /// The greeting shown when a session starts, or its JSON form.
    pub fn server_intro(&self, info: &ServerIntro, tool_count: usize) -> (r: String)
        ensures
            r@ == spec_server_intro(*self, info@, tool_count),
    {
        if self.json {
            let mut entries: Vec<(String, Json)> = Vec::new();
            entries.push((owned("capabilities"), info.capabilities.deep_clone()));
            entries.push((owned("protocolVersion"), info.protocol_version.deep_clone()));
            entries.push((owned("server"), info.server.deep_clone()));
            entries.push((owned("toolCount"), Json::Number(decimal_string(tool_count))));
            proof {
                crate::json::lemma_entries_model(entries@);
                assert(entries_model(entries@) =~= seq![
                    ("capabilities"@, info.capabilities@),
                    ("protocolVersion"@, info.protocol_version@),
                    ("server"@, info.server@),
                    ("toolCount"@, JsonModel::Number(decimal(tool_count as nat))),
                ]);
            }
            let value = Json::Object(entries);
            assert(value@ == JsonModel::Object(
                seq![
                    ("capabilities"@, info.capabilities@),
                    ("protocolVersion"@, info.protocol_version@),
                    ("server"@, info.server@),
                    ("toolCount"@, JsonModel::Number(decimal(tool_count as nat))),
                ],
            ));
            return self.json_value(&value);
        }
        proof {
            reveal_strlit("\n");
        }
        let mut out = self.accent("connected");
        out.append(" ");
        out.append(info.name.as_str());
        out.append(" ");
        let version = concat("v", info.version.as_str());
        out.append(self.dim(version.as_str()).as_str());
        out.append("\n");
        out.append(self.label("protocol").as_str());
        out.append(" ");
        out.append(self.json_value(&info.protocol_version).as_str());
        out.append("\n");
        out.append(self.label("tools").as_str());
        out.append(" ");
        out.append(decimal_string(tool_count).as_str());
        out.append("\n");
        out
    }
}

} // verus!
