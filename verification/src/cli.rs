//! The inspector's command line: the target to connect to, the HTTP headers
//! and bearer token that go with an HTTP target, and the transport that they
//! make together.
use vstd::prelude::*;
use crate::text::{concat, has_prefix, owned, split_once, split_once_str, starts_with, trim, trim_str, views};
use crate::transport::{ConfigError, TransportConfig, TransportModel};

verus! {

/// The options and arguments the inspector was started with.
#[derive(Debug, Clone)]
pub struct Cli {
    /// Print protocol and diagnostic detail.
    pub debug: bool,
    /// Emit command output as JSON where possible.
    pub json: bool,
    /// Path to the shell history file.
    pub history: Option<String>,
    /// Disable ANSI colors.
    pub no_color: bool,
    /// `NAME=VALUE` headers to send with every Streamable HTTP request.
    pub headers: Vec<String>,
    /// A bearer token for Streamable HTTP requests.
    pub bearer_token: Option<String>,
    /// The environment variable to read a bearer token from.
    pub bearer_token_env: Option<String>,
    /// The file to read a bearer token from.
    pub bearer_token_file: Option<String>,
    /// Prompt for a bearer token.
    pub bearer_token_prompt: bool,
    /// An HTTP(S) endpoint URL, or a command and its arguments.
    pub target: Vec<String>,
}

/// The mathematical value of a `Cli`: what the transport depends on.
pub struct CliModel {
    pub headers: Seq<Seq<char>>,
    pub bearer_token: Option<Seq<char>>,
    pub bearer_token_env: Option<Seq<char>>,
    pub bearer_token_file: Option<Seq<char>>,
    pub bearer_token_prompt: bool,
    pub target: Seq<Seq<char>>,
}

/// The view of an optional string.
pub open spec fn opt_str(o: Option<String>) -> Option<Seq<char>> {
    match o {
        Some(s) => Some(s@),
        None => None,
    }
}

impl View for Cli {
    type V = CliModel;

    open spec fn view(&self) -> CliModel {
        CliModel {
            headers: views(self.headers@),
            bearer_token: opt_str(self.bearer_token),
            bearer_token_env: opt_str(self.bearer_token_env),
            bearer_token_file: opt_str(self.bearer_token_file),
            bearer_token_prompt: self.bearer_token_prompt,
            target: views(self.target@),
        }
    }
}

/// Where a bearer token comes from.
#[derive(Debug, Clone, PartialEq, Eq)]
pub enum BearerTokenSource {
    /// An environment variable, by name.
    /// The token itself, as the command line gave it.
    Value(String),
    Env(String),
    /// A file, by path.
    File(String),
    /// A prompt that does not echo.
    Prompt,
}

/// The mathematical value of a `BearerTokenSource`.
pub enum SourceModel {
    Value(Seq<char>),
    Env(Seq<char>),
    File(Seq<char>),
    Prompt,
}

impl View for BearerTokenSource {
    type V = SourceModel;

    open spec fn view(&self) -> SourceModel {
        match self {
            BearerTokenSource::Value(t) => SourceModel::Value(t@),
            BearerTokenSource::Env(n) => SourceModel::Env(n@),
            BearerTokenSource::File(p) => SourceModel::File(p@),
            BearerTokenSource::Prompt => SourceModel::Prompt,
        }
    }
}

/// The view of an optional source.
pub open spec fn opt_source(o: Option<BearerTokenSource>) -> Option<SourceModel> {
    match o {
        Some(s) => Some(s@),
        None => None,
    }
}

/// The error for more than one bearer token source.
pub open spec fn too_many_sources() -> Seq<char> {
    "provide only one bearer token source: --bearer-token-env, --bearer-token-file, or --bearer-token-prompt"@
}

/// The bearer token sources the options name, in the order token, env, file,
/// prompt.
pub open spec fn token_sources(c: CliModel) -> Seq<SourceModel> {
    (match c.bearer_token {
        Some(t) => seq![SourceModel::Value(t)],
        None => Seq::empty(),
    }) + (match c.bearer_token_env {
        Some(n) => seq![SourceModel::Env(n)],
        None => Seq::empty(),
    }) + (match c.bearer_token_file {
        Some(p) => seq![SourceModel::File(p)],
        None => Seq::empty(),
    }) + (if c.bearer_token_prompt {
        seq![SourceModel::Prompt]
    } else {
        Seq::empty()
    })
}

/// The one bearer token source the options name, if any; more than one is an
/// error.
pub open spec fn spec_bearer_token_source(c: CliModel) -> Result<Option<SourceModel>, Seq<char>> {
    let sources = token_sources(c);
    if sources.len() == 0 {
        Ok(None)
    } else if sources.len() == 1 {
        Ok(Some(sources[0]))
    } else {
        Err(too_many_sources())
    }
}

/// Whether a target is an HTTP(S) URL.
pub open spec fn spec_is_http_url(value: Seq<char>) -> bool {
    has_prefix(value, "http://"@) || has_prefix(value, "https://"@)
}

/// What `format!("{:?}", s)` writes for a string: `s` quoted, with the
/// characters that `str::escape_debug` escapes escaped.
pub uninterp spec fn spec_debug_str(s: Seq<char>) -> Seq<char>;

/// `s` as `Debug` for `str` writes it; its result is named by
/// `spec_debug_str`.
#[verifier::external_body]
fn debug_str(s: &str) -> (r: String)
    ensures
        r@ == spec_debug_str(s@),
{
    format!("{s:?}")
}

/// The name and value that a `NAME=VALUE` header option gives, both trimmed;
/// an option without `=`, or with an empty name, is an error.
pub open spec fn spec_parse_header(h: Seq<char>) -> Result<(Seq<char>, Seq<char>), Seq<char>> {
    match split_once(h, '=') {
        None => Err("invalid --header value "@ + spec_debug_str(h) + "; expected NAME=VALUE"@),
        Some(parts) => if trim(parts.0).len() == 0 {
            Err("header name cannot be empty"@)
        } else {
            Ok((trim(parts.0), trim(parts.1)))
        },
    }
}

/// The position of the header named `name`, if there is one.
pub open spec fn header_index(hs: Seq<(Seq<char>, Seq<char>)>, name: Seq<char>) -> Option<nat>
    decreases hs.len(),
{
    if hs.len() == 0 {
        None
    } else if hs.last().0 == name {
        Some((hs.len() - 1) as nat)
    } else {
        header_index(hs.drop_last(), name)
    }
}

/// `hs` with `name` set to `value`: the header of that name takes the new
/// value where there is one; else the header comes last.
pub open spec fn set_header(hs: Seq<(Seq<char>, Seq<char>)>, name: Seq<char>, value: Seq<char>) -> Seq<
    (Seq<char>, Seq<char>),
> {
    match header_index(hs, name) {
        Some(i) => hs.update(i as int, (name, value)),
        None => hs.push((name, value)),
    }
}

/// The headers that the header options give, each name once with the value
/// of its last option; or the error of the first option that is refused.
pub open spec fn spec_parse_headers(hs: Seq<Seq<char>>) -> Result<Seq<(Seq<char>, Seq<char>)>, Seq<char>>
    decreases hs.len(),
{
    if hs.len() == 0 {
        Ok(Seq::empty())
    } else {
        match spec_parse_headers(hs.drop_last()) {
            Err(e) => Err(e),
            Ok(acc) => match spec_parse_header(hs.last()) {
                Err(e) => Err(e),
                Ok(p) => Ok(set_header(acc, p.0, p.1)),
            },
        }
    }
}

/// The error for an empty bearer token.
pub open spec fn empty_token() -> Seq<char> {
    "bearer token source resolved to an empty token"@
}

/// The bearer token that a source gives, from what reading it gave: the
/// token trimmed; an empty token, or a failed read, is an error.
pub open spec fn spec_token(source: SourceModel, raw: Result<Seq<char>, Seq<char>>) -> Result<Seq<char>, Seq<char>> {
    match raw {
        Err(detail) => match source {
            SourceModel::Value(_) => Err(detail),
            SourceModel::Env(name) => Err("failed to read bearer token environment variable "@ + name),
            SourceModel::File(path) => Err("failed to read bearer token file: "@ + path),
            SourceModel::Prompt => Err(detail),
        },
        Ok(text) => if trim(text).len() == 0 {
            Err(empty_token())
        } else {
            Ok(trim(text))
        },
    }
}

/// What a read that may fail gave.
pub open spec fn read_outcome(o: Option<String>) -> Result<Seq<char>, Seq<char>> {
    match o {
        Some(t) => Ok(t@),
        None => Err(Seq::empty()),
    }
}

/// What a prompt gave.
pub open spec fn prompt_outcome(o: Result<String, String>) -> Result<Seq<char>, Seq<char>> {
    match o {
        Ok(t) => Ok(t@),
        Err(e) => Err(e@),
    }
}

/// The bearer token that `source` gives where reading it gives `raw`.
pub open spec fn token_result(r: Result<Option<String>, ConfigError>) -> Result<Option<Seq<char>>, Seq<char>> {
    match r {
        Ok(Some(t)) => Ok(Some(t@)),
        Ok(None) => Ok(None),
        Err(e) => Err(e.message@),
    }
}

/// Whether `tok` is a bearer token outcome that `source` can give, where
/// `env_var` reads environment variables, `read_file` reads files and
/// `prompt` asks the user; a token given on the command line needs none.
pub open spec fn token_outcome<
    E: Fn(&str) -> Option<String>,
    R: Fn(&str) -> Option<String>,
    P: Fn() -> Result<String, String>,
>(
    source: Option<SourceModel>,
    env_var: E,
    read_file: R,
    prompt: P,
    tok: Result<Option<Seq<char>>, Seq<char>>,
) -> bool {
    match source {
        None => tok == Ok::<Option<Seq<char>>, Seq<char>>(None),
        Some(SourceModel::Value(t)) => tok == token_outcome_of_value(t),
        Some(SourceModel::Env(name)) => exists|n: &str, o: Option<String>|
            n@ == name && call_ensures(env_var, (n,), o) && tok == lift_token(
                spec_token(SourceModel::Env(name), read_outcome(o)),
            ),
        Some(SourceModel::File(path)) => exists|p: &str, o: Option<String>|
            p@ == path && call_ensures(read_file, (p,), o) && tok == lift_token(
                spec_token(SourceModel::File(path), read_outcome(o)),
            ),
        Some(SourceModel::Prompt) => exists|o: Result<String, String>|
            call_ensures(prompt, (), o) && tok == lift_token(
                spec_token(SourceModel::Prompt, prompt_outcome(o)),
            ),
    }
}

/// A token as an optional one.
pub open spec fn lift_token(t: Result<Seq<char>, Seq<char>>) -> Result<Option<Seq<char>>, Seq<char>> {
    match t {
        Ok(t) => Ok(Some(t)),
        Err(e) => Err(e),
    }
}

/// The transport that the command line gives, where resolving the bearer
/// token (if it is needed) gave `tok`.
pub open spec fn spec_transport_config(c: CliModel, tok: Result<Option<Seq<char>>, Seq<char>>) -> Result<
    TransportModel,
    Seq<char>,
> {
    if c.target.len() == 0 {
        Err("missing MCP server target"@)
    } else {
        match spec_bearer_token_source(c) {
            Err(e) => Err(e),
            Ok(source) => if spec_is_http_url(c.target[0]) {
                if c.target.len() > 1 {
                    Err("extra positional arguments are not valid when TARGET is an HTTP URL"@)
                } else {
                    match spec_parse_headers(c.headers) {
                        Err(e) => Err(e),
                        Ok(headers) => match tok {
                            Err(e) => Err(e),
                            Ok(bearer_token) => Ok(
                                TransportModel::StreamableHttp {
                                    url: c.target[0],
                                    headers,
                                    bearer_token,
                                },
                            ),
                        },
                    }
                }
            } else if source is Some || c.headers.len() > 0 {
                Err("--header and bearer token options require an http:// or https:// TARGET"@)
            } else {
                Ok(TransportModel::Stdio { command: c.target[0], args: c.target.skip(1) })
            },
        }
    }
}

/// Whether the command line gets as far as reading the bearer token: an
/// HTTP(S) target alone, one bearer token source at most, and header options
/// that all parse.
pub open spec fn resolves_token(c: CliModel) -> bool {
    &&& c.target.len() == 1
    &&& spec_is_http_url(c.target[0])
    &&& spec_bearer_token_source(c) is Ok
    &&& spec_parse_headers(c.headers) is Ok
}

/// A transport, or the message of the error.
pub open spec fn config_result(r: Result<TransportConfig, ConfigError>) -> Result<TransportModel, Seq<char>> {
    match r {
        Ok(t) => Ok(t@),
        Err(e) => Err(e.message@),
    }
}

/// Whether `value` is an HTTP(S) URL.
pub fn is_http_url(value: &str) -> (r: bool)
    ensures
        r == spec_is_http_url(value@),
{
    starts_with(value, "http://") || starts_with(value, "https://")
}

/// The name and value of one `NAME=VALUE` header option.
fn parse_header(header: &str) -> (r: Result<(String, String), ConfigError>)
    ensures
        match r {
            Ok(p) => spec_parse_header(header@) == Ok::<_, Seq<char>>((p.0@, p.1@)),
            Err(e) => spec_parse_header(header@) == Err::<(Seq<char>, Seq<char>), _>(e.message@),
        },
{
    match split_once_str(header, '=') {
        None => {
            let mut message = owned("invalid --header value ");
            message.append(debug_str(header).as_str());
            message.append("; expected NAME=VALUE");
            Err(ConfigError::new(message))
        },
        Some((name, value)) => {
            let name = trim_str(name.as_str());
            if name.as_str().unicode_len() == 0 {
                return Err(ConfigError::new(owned("header name cannot be empty")));
            }
            Ok((name, trim_str(value.as_str())))
        },
    }
}

/// Once a header option is refused, the options after it do not matter.
proof fn lemma_parse_headers_error_stays(hs: Seq<Seq<char>>, i: int)
    requires
        0 <= i <= hs.len(),
        spec_parse_headers(hs.take(i)) is Err,
    ensures
        spec_parse_headers(hs.take(hs.len() as int)) == spec_parse_headers(hs.take(i)),
    decreases hs.len() - i,
{
    if i < hs.len() {
        assert(hs.take(i + 1).drop_last() =~= hs.take(i));
        lemma_parse_headers_error_stays(hs, i + 1);
    }
}

/// Sets the header `name` to `value` in `headers`.
fn set_header_vec(headers: &mut Vec<(String, String)>, name: String, value: String)
    ensures
        crate::transport::header_views(final(headers)@) == set_header(
            crate::transport::header_views(old(headers)@),
            name@,
            value@,
        ),
{
    let ghost hv = crate::transport::header_views(headers@);
    let mut j: usize = headers.len();
    assert(hv.take(j as int) =~= hv);
    while j > 0
        invariant
            j <= headers@.len(),
            headers@ == old(headers)@,
            hv == crate::transport::header_views(headers@),
            header_index(hv, name@) == header_index(hv.take(j as int), name@),
        decreases j,
    {
        assert(hv.take(j as int).drop_last() =~= hv.take(j - 1));
        assert(hv.take(j as int).last() == (headers@[j - 1].0@, headers@[j - 1].1@));
        if crate::text::str_eq(headers[j - 1].0.as_str(), name.as_str()) {
            assert(header_index(hv, name@) == Some((j - 1) as nat));
            let ghost nv = (name@, value@);
            headers.set(j - 1, (name, value));
            assert(crate::transport::header_views(headers@) =~= hv.update(j - 1, nv));
            return;
        }
        j = j - 1;
    }
    let ghost nv = (name@, value@);
    headers.push((name, value));
    assert(crate::transport::header_views(headers@) =~= hv.push(nv));
}

/// The headers that the header options give.
pub fn parse_headers(headers: &[String]) -> (r: Result<Vec<(String, String)>, ConfigError>)
    ensures
        match r {
            Ok(hs) => spec_parse_headers(views(headers@)) == Ok::<_, Seq<char>>(
                crate::transport::header_views(hs@),
            ),
            Err(e) => spec_parse_headers(views(headers@)) == Err::<Seq<(Seq<char>, Seq<char>)>, _>(
                e.message@,
            ),
        },
{
    let mut parsed: Vec<(String, String)> = Vec::new();
    let mut i: usize = 0;
    assert(views(headers@).take(0) =~= Seq::<Seq<char>>::empty());
    assert(crate::transport::header_views(parsed@) =~= Seq::<(Seq<char>, Seq<char>)>::empty());
    while i < headers.len()
        invariant
            i <= headers@.len(),
            spec_parse_headers(views(headers@).take(i as int)) == Ok::<_, Seq<char>>(
                crate::transport::header_views(parsed@),
            ),
        decreases headers@.len() - i,
    {
        let ghost acc = crate::transport::header_views(parsed@);
        assert(views(headers@).take(i + 1).drop_last() =~= views(headers@).take(i as int));
        assert(views(headers@).take(i + 1).last() == headers@[i as int]@);
        let (name, value) = match parse_header(headers[i].as_str()) {
            Ok(p) => p,
            Err(e) => {
                proof {
                    lemma_parse_headers_error_stays(views(headers@), i + 1);
                    assert(views(headers@).take(headers@.len() as int) =~= views(headers@));
                }
                return Err(e);
            },
        };
        set_header_vec(&mut parsed, name, value);
        i = i + 1;
    }
    assert(views(headers@).take(i as int) =~= views(headers@));
    Ok(parsed)
}

/// The bearer token that `source` gives, from what reading it gave: `raw`
/// holds what the environment variable, the file or the prompt gave, or why
/// reading it failed.
pub fn bearer_token_from(source: &BearerTokenSource, raw: Result<String, String>) -> (r: Result<String, ConfigError>)
    ensures
        match r {
            Ok(t) => spec_token(source@, prompt_outcome(raw)) == Ok::<_, Seq<char>>(t@),
            Err(e) => spec_token(source@, prompt_outcome(raw)) == Err::<Seq<char>, _>(e.message@),
        },
{
    match raw {
        Err(detail) => match source {
            BearerTokenSource::Value(_) => Err(ConfigError::new(detail)),
            BearerTokenSource::Env(name) => Err(
                ConfigError::new(concat("failed to read bearer token environment variable ", name.as_str())),
            ),
            BearerTokenSource::File(path) => Err(
                ConfigError::new(concat("failed to read bearer token file: ", path.as_str())),
            ),
            BearerTokenSource::Prompt => Err(ConfigError::new(detail)),
        },
        Ok(text) => {
            let token = trim_str(text.as_str());
            if token.as_str().unicode_len() == 0 {
                Err(ConfigError::new(owned("bearer token source resolved to an empty token")))
            } else {
                Ok(token)
            }
        },
    }
}

/// Reads the bearer token that `source` names, if any: the token given on the
/// command line, or one read from the environment with `env_var`, from a file
/// with `read_file` (each gives `None` where it cannot read), or from the
/// user with `prompt`. Only the reader of that one source is called, and only
/// with its name or path; the others need not be callable at all.
pub fn resolve_bearer_token<
    E: Fn(&str) -> Option<String>,
    R: Fn(&str) -> Option<String>,
    P: Fn() -> Result<String, String>,
>(source: &Option<BearerTokenSource>, env_var: E, read_file: R, prompt: P) -> (r: Result<
    Option<String>,
    ConfigError,
>)
    requires
        forall|n: &str| reads_env(opt_source(*source), n@) ==> call_requires(env_var, (n,)),
        forall|p: &str| reads_file(opt_source(*source), p@) ==> call_requires(read_file, (p,)),
        asks_prompt(opt_source(*source)) ==> call_requires(prompt, ()),
    ensures
        token_outcome(opt_source(*source), env_var, read_file, prompt, token_result(r)),
{
    let source = match source {
        None => {
            return Ok(None);
        },
        Some(s) => s,
    };
    let raw = match source {
        BearerTokenSource::Value(t) => Ok(t.clone()),
        BearerTokenSource::Env(name) => {
            let o = env_var(name.as_str());
            match o {
                Some(t) => Ok(t),
                None => Err(String::new()),
            }
        },
        BearerTokenSource::File(path) => {
            let o = read_file(path.as_str());
            match o {
                Some(t) => Ok(t),
                None => Err(String::new()),
            }
        },
        BearerTokenSource::Prompt => prompt(),
    };
    match bearer_token_from(source, raw) {
        Ok(t) => Ok(Some(t)),
        Err(e) => Err(e),
    }
}

impl Cli {
    /// The one bearer token source that the options name, if any.
    pub fn bearer_token_source(&self) -> (r: Result<Option<BearerTokenSource>, ConfigError>)
        ensures
            match r {
                Ok(s) => spec_bearer_token_source(self@) == Ok::<_, Seq<char>>(opt_source(s)),
                Err(e) => spec_bearer_token_source(self@) == Err::<Option<SourceModel>, _>(e.message@),
            },
    {
        let mut sources: Vec<BearerTokenSource> = Vec::new();
        if let Some(token) = &self.bearer_token {
            sources.push(BearerTokenSource::Value(token.clone()));
        }
        if let Some(var) = &self.bearer_token_env {
            sources.push(BearerTokenSource::Env(var.clone()));
        }
        if let Some(path) = &self.bearer_token_file {
            sources.push(BearerTokenSource::File(path.clone()));
        }
        if self.bearer_token_prompt {
            sources.push(BearerTokenSource::Prompt);
        }
        assert(sources@.map_values(|s: BearerTokenSource| s@) =~= token_sources(self@));
        if sources.len() == 0 {
            Ok(None)
        } else if sources.len() == 1 {
            assert(sources@.map_values(|s: BearerTokenSource| s@)[0] == sources@[0]@);
            Ok(Some(sources.remove(0)))
        } else {
            Err(ConfigError::new(owned(
                "provide only one bearer token source: --bearer-token-env, --bearer-token-file, or --bearer-token-prompt",
            )))
        }
    }

    /// The transport that the command line gives. An HTTP(S) target takes
    /// the header options and the bearer token, given on the command line or
    /// read by `env_var`, `read_file` or `prompt`; any other target is a
    /// command to spawn, and takes neither. A reader is called only where
    /// the target is an HTTP(S) URL alone, the header options parse and its
    /// source is the one named, and then only with that name or path; the
    /// other readers need not be callable at all.
    pub fn transport_config_with_resolvers<
        E: Fn(&str) -> Option<String>,
        R: Fn(&str) -> Option<String>,
        P: Fn() -> Result<String, String>,
    >(&self, env_var: E, read_file: R, prompt: P) -> (r: Result<TransportConfig, ConfigError>)
        requires
            forall|n: &str| reads_env(token_source_read(self@), n@) ==> call_requires(env_var, (n,)),
            forall|p: &str| reads_file(token_source_read(self@), p@) ==> call_requires(
                read_file,
                (p,),
            ),
            asks_prompt(token_source_read(self@)) ==> call_requires(prompt, ()),
        ensures
            exists|tok: Result<Option<Seq<char>>, Seq<char>>|
                (resolves_token(self@) ==> token_outcome(
                    spec_bearer_token_source(self@)->Ok_0,
                    env_var,
                    read_file,
                    prompt,
                    tok,
                )) && config_result(r) == spec_transport_config(self@, tok) && ((r is Err)
                    <==> transport_refused(self@, tok)),
    {
        if self.target.len() == 0 {
            let r = Err(ConfigError::new(owned("missing MCP server target")));
            assert(config_result(r) == spec_transport_config(self@, Ok(None)));
            return r;
        }
        assert(views(self.target@)[0] == self.target@[0]@);
        let token_source = match self.bearer_token_source() {
            Ok(s) => s,
            Err(e) => {
                let r = Err(e);
                assert(config_result(r) == spec_transport_config(self@, Ok(None)));
                return r;
            },
        };
        let first = &self.target[0];
        if is_http_url(first.as_str()) {
            if self.target.len() > 1 {
                let r = Err(ConfigError::new(owned(
                    "extra positional arguments are not valid when TARGET is an HTTP URL",
                )));
                assert(config_result(r) == spec_transport_config(self@, Ok(None)));
                return r;
            }
            let headers = match parse_headers(self.headers.as_slice()) {
                Ok(h) => h,
                Err(e) => {
                    let r = Err(e);
                    assert(config_result(r) == spec_transport_config(self@, Ok(None)));
                    return r;
                },
            };
            let token = resolve_bearer_token(&token_source, env_var, read_file, prompt);
            let ghost tok = token_result(token);
            let bearer_token = match token {
                Ok(t) => t,
                Err(e) => {
                    let r = Err(e);
                    assert(config_result(r) == spec_transport_config(self@, tok));
                    return r;
                },
            };
            let r = Ok(TransportConfig::StreamableHttp { url: first.clone(), headers, bearer_token });
            assert(config_result(r) == spec_transport_config(self@, tok));
            r
        } else {
            if token_source.is_some() || self.headers.len() > 0 {
                let r = Err(ConfigError::new(owned(
                    "--header and bearer token options require an http:// or https:// TARGET",
                )));
                assert(config_result(r) == spec_transport_config(self@, Ok(None)));
                return r;
            }
            let r = match TransportConfig::stdio(self.target.clone()) {
                Ok(t) => Ok(t),
                Err(e) => Err(e),
            };
            assert(config_result(r) == spec_transport_config(self@, Ok(None)));
            r
        }
    }
}

/// The names of `hs` are all different.
pub open spec fn names_distinct(hs: Seq<(Seq<char>, Seq<char>)>) -> bool {
    forall|i: int, j: int| 0 <= i < j < hs.len() ==> #[trigger] hs[i].0 != #[trigger] hs[j].0
}

/// The headers as a map from name to value.
pub open spec fn header_map(hs: Seq<(Seq<char>, Seq<char>)>) -> Map<Seq<char>, Seq<char>>
    decreases hs.len(),
{
    if hs.len() == 0 {
        Map::empty()
    } else {
        header_map(hs.drop_last()).insert(hs.last().0, hs.last().1)
    }
}

/// The map that the header options make when each sets its name to its
/// value in turn, as inserting into a `HashMap` does; options that do not
/// parse set nothing.
pub open spec fn options_map(options: Seq<Seq<char>>) -> Map<Seq<char>, Seq<char>>
    decreases options.len(),
{
    if options.len() == 0 {
        Map::empty()
    } else {
        match spec_parse_header(options.last()) {
            Ok(p) => options_map(options.drop_last()).insert(p.0, p.1),
            Err(_) => options_map(options.drop_last()),
        }
    }
}

/// `header_index` finds a header of that name, or there is none.
proof fn lemma_header_index(hs: Seq<(Seq<char>, Seq<char>)>, name: Seq<char>)
    ensures
        match header_index(hs, name) {
            Some(i) => i < hs.len() && hs[i as int].0 == name,
            None => forall|j: int| 0 <= j < hs.len() ==> #[trigger] hs[j].0 != name,
        },
    decreases hs.len(),
{
    if hs.len() > 0 {
        lemma_header_index(hs.drop_last(), name);
        if hs.last().0 != name {
            if header_index(hs.drop_last(), name) is None {
                assert forall|j: int| 0 <= j < hs.len() implies #[trigger] hs[j].0 != name by {
                    if j < hs.len() - 1 {
                        assert(hs[j] == hs.drop_last()[j]);
                    }
                }
            }
        }
    }
}

/// Where names differ, the map holds each header's value under its name
/// and no other names.
proof fn lemma_header_map_facts(hs: Seq<(Seq<char>, Seq<char>)>)
    requires
        names_distinct(hs),
    ensures
        forall|j: int|
            0 <= j < hs.len() ==> header_map(hs).contains_key(#[trigger] hs[j].0) && header_map(hs)[hs[j].0]
                == hs[j].1,
        forall|k: Seq<char>|
            #[trigger] header_map(hs).contains_key(k) ==> exists|j: int| 0 <= j < hs.len() && hs[j].0 == k,
    decreases hs.len(),
{
    if hs.len() > 0 {
        let d = hs.drop_last();
        assert(names_distinct(d)) by {
            assert forall|i: int, j: int| 0 <= i < j < d.len() implies #[trigger] d[i].0 != #[trigger] d[j].0 by {
                assert(d[i] == hs[i] && d[j] == hs[j]);
            }
        }
        lemma_header_map_facts(d);
        assert forall|j: int|
            0 <= j < hs.len() implies header_map(hs).contains_key(#[trigger] hs[j].0) && header_map(hs)[hs[j].0]
                == hs[j].1 by {
            if j < hs.len() - 1 {
                assert(hs[j] == d[j]);
                assert(hs[j].0 != hs[hs.len() - 1].0);
            }
        }
        assert forall|k: Seq<char>| #[trigger] header_map(hs).contains_key(k) implies exists|j: int|
            0 <= j < hs.len() && hs[j].0 == k by {
            if k == hs.last().0 {
                assert(hs[hs.len() - 1].0 == k);
            } else {
                assert(header_map(d).contains_key(k));
                let j = choose|j: int| 0 <= j < d.len() && d[j].0 == k;
                assert(hs[j] == d[j]);
            }
        }
    }
}

/// Setting a header keeps the names different, and sets the name to the
/// value in the map of the headers.
proof fn lemma_set_header(hs: Seq<(Seq<char>, Seq<char>)>, name: Seq<char>, value: Seq<char>)
    requires
        names_distinct(hs),
    ensures
        names_distinct(set_header(hs, name, value)),
        header_map(set_header(hs, name, value)) == header_map(hs).insert(name, value),
{
    lemma_header_index(hs, name);
    let r = set_header(hs, name, value);
    match header_index(hs, name) {
        Some(i) => {
            assert forall|a: int, b: int| 0 <= a < b < r.len() implies #[trigger] r[a].0 != #[trigger] r[b].0 by {
                assert(r[a].0 == hs[a].0 && r[b].0 == hs[b].0);
            }
            lemma_header_map_facts(hs);
            lemma_header_map_facts(r);
            assert forall|k: Seq<char>| header_map(r).contains_key(k) <==> header_map(hs).insert(name, value).contains_key(k) by {
                if header_map(r).contains_key(k) {
                    let j = choose|j: int| 0 <= j < r.len() && r[j].0 == k;
                    assert(hs[j].0 == k);
                }
                if header_map(hs).contains_key(k) {
                    let j = choose|j: int| 0 <= j < hs.len() && hs[j].0 == k;
                    assert(r[j].0 == k);
                }
                if k == name {
                    assert(r[i as int].0 == k);
                }
            }
            assert forall|k: Seq<char>| #[trigger] header_map(r).contains_key(k) implies header_map(r)[k]
                == header_map(hs).insert(name, value)[k] by {
                let j = choose|j: int| 0 <= j < r.len() && r[j].0 == k;
                if j == i {
                    assert(r[j].1 == value);
                } else {
                    assert(r[j] == hs[j]);
                    assert(k != name);
                }
            }
            assert(header_map(r) =~= header_map(hs).insert(name, value));
        },
        None => {
            assert forall|a: int, b: int| 0 <= a < b < r.len() implies #[trigger] r[a].0 != #[trigger] r[b].0 by {
                if b == r.len() - 1 {
                    assert(r[a] == hs[a]);
                } else {
                    assert(r[a] == hs[a] && r[b] == hs[b]);
                }
            }
            assert(r.drop_last() =~= hs);
        },
    }
}

/// Law: the header options make each name appear once, with the value of the
/// last option that names it, as inserting each into a map does.
pub proof fn lemma_parse_headers_map(options: Seq<Seq<char>>)
    ensures
        spec_parse_headers(options) matches Ok(hs) ==> names_distinct(hs) && header_map(hs)
            == options_map(options),
    decreases options.len(),
{
    if options.len() > 0 {
        lemma_parse_headers_map(options.drop_last());
        if let Ok(acc) = spec_parse_headers(options.drop_last()) {
            if let Ok(p) = spec_parse_header(options.last()) {
                lemma_set_header(acc, p.0, p.1);
            }
        }
    }
}

/// Law: the first target decides the transport: an HTTP(S) URL gives
/// Streamable HTTP, anything else a command to spawn.
pub proof fn lemma_first_target_decides(c: CliModel, tok: Result<Option<Seq<char>>, Seq<char>>)
    ensures
        spec_transport_config(c, tok) matches Ok(t) ==> ((t is StreamableHttp) <==> spec_is_http_url(
            c.target[0],
        )),
{
}

/// Law: headers and bearer token options go with an HTTP(S) target only; a
/// command to spawn comes with neither.
pub proof fn lemma_http_options_need_http_target(c: CliModel, tok: Result<Option<Seq<char>>, Seq<char>>)
    ensures
        spec_transport_config(c, tok) matches Ok(TransportModel::Stdio { .. }) ==> c.headers.len()
            == 0 && token_sources(c).len() == 0,
{
}

/// When the transport is refused: the target is missing, more than one
/// bearer token source is named, an HTTP(S) target has extra arguments, a
/// header option is refused or its token could not be had, or a command
/// target comes with header or token options.
pub open spec fn transport_refused(c: CliModel, tok: Result<Option<Seq<char>>, Seq<char>>) -> bool {
    ||| c.target.len() == 0
    ||| token_sources(c).len() >= 2
    ||| (spec_is_http_url(c.target[0]) && (c.target.len() > 1 || spec_parse_headers(c.headers) is Err
        || tok is Err))
    ||| (!spec_is_http_url(c.target[0]) && (token_sources(c).len() == 1 || c.headers.len() > 0))
}

/// The token source that the command line gets as far as reading: the one
/// source it names, where the target is an HTTP(S) URL alone and the header
/// options all parse; none otherwise.
pub open spec fn token_source_read(c: CliModel) -> Option<SourceModel> {
    if resolves_token(c) {
        spec_bearer_token_source(c)->Ok_0
    } else {
        None
    }
}

/// Whether reading `source` reads the environment variable `name`.
pub open spec fn reads_env(source: Option<SourceModel>, name: Seq<char>) -> bool {
    source == Some(SourceModel::Env(name))
}

/// Whether reading `source` reads the file at `path`.
pub open spec fn reads_file(source: Option<SourceModel>, path: Seq<char>) -> bool {
    source == Some(SourceModel::File(path))
}

/// Whether reading `source` asks the user.
pub open spec fn asks_prompt(source: Option<SourceModel>) -> bool {
    source == Some(SourceModel::Prompt)
}

/// Law: the transport is refused exactly when the target is missing, more
/// than one bearer token source is named, an HTTP(S) target has extra
/// arguments, a header option is refused or its token could not be had, or a
/// command target comes with header or token options.
pub proof fn lemma_transport_config_refused(c: CliModel, tok: Result<Option<Seq<char>>, Seq<char>>)
    ensures
        (spec_transport_config(c, tok) is Err) <==> transport_refused(c, tok),
{
}

/// Law: a bearer token given on the command line is the token an HTTP(S)
/// target gets, trimmed.
pub proof fn lemma_command_line_token(c: CliModel, t: Seq<char>)
    requires
        c.target.len() == 1,
        spec_is_http_url(c.target[0]),
        c.bearer_token == Some(t),
        c.bearer_token_env is None,
        c.bearer_token_file is None,
        !c.bearer_token_prompt,
        spec_parse_headers(c.headers) is Ok,
        trim(t).len() > 0,
    ensures
        token_outcome_of_value(t) == Ok::<Option<Seq<char>>, Seq<char>>(Some(trim(t))),
        spec_transport_config(c, token_outcome_of_value(t)) == Ok::<TransportModel, Seq<char>>(
            TransportModel::StreamableHttp {
                url: c.target[0],
                headers: spec_parse_headers(c.headers)->Ok_0,
                bearer_token: Some(trim(t)),
            },
        ),
{
    assert(token_sources(c) =~= seq![SourceModel::Value(t)]);
}

/// The one bearer token outcome that a token given on the command line has.
pub open spec fn token_outcome_of_value(t: Seq<char>) -> Result<Option<Seq<char>>, Seq<char>> {
    lift_token(spec_token(SourceModel::Value(t), Ok(t)))
}

/// Law: the header options are accepted exactly when each of them is: it
/// holds `=`, and its name is not blank once trimmed.
pub proof fn lemma_parse_headers_accepts(options: Seq<Seq<char>>)
    ensures
        (spec_parse_headers(options) is Ok) <==> forall|i: int|
            0 <= i < options.len() ==> #[trigger] spec_parse_header(options[i]) is Ok,
    decreases options.len(),
{
    if options.len() > 0 {
        let d = options.drop_last();
        lemma_parse_headers_accepts(d);
        assert forall|i: int| 0 <= i < d.len() implies #[trigger] d[i] == options[i] by {}
        if spec_parse_headers(options) is Ok {
            assert forall|i: int| 0 <= i < options.len() implies #[trigger] spec_parse_header(
                options[i],
            ) is Ok by {
                if i < d.len() {
                    assert(spec_parse_header(d[i]) is Ok);
                }
            }
        }
        if forall|i: int| 0 <= i < options.len() ==> #[trigger] spec_parse_header(options[i]) is Ok {
            assert forall|i: int| 0 <= i < d.len() implies #[trigger] spec_parse_header(d[i]) is Ok by {
                assert(spec_parse_header(options[i]) is Ok);
            }
            assert(spec_parse_header(options[options.len() - 1]) is Ok);
        }
    }
}

/// Law: the map that the header options make holds a name exactly when some
/// option that parses gives it, with the trimmed value of the last such
/// option.
pub proof fn lemma_options_map_last(options: Seq<Seq<char>>, name: Seq<char>, j: int)
    requires
        0 <= j < options.len(),
        spec_parse_header(options[j]) matches Ok(p) && p.0 == name,
        forall|k: int|
            j < k < options.len() ==> !(#[trigger] spec_parse_header(options[k]) matches Ok(p)
                && p.0 == name),
    ensures
        options_map(options).contains_key(name),
        options_map(options)[name] == spec_parse_header(options[j])->Ok_0.1,
    decreases options.len(),
{
    let d = options.drop_last();
    if j < options.len() - 1 {
        assert forall|k: int| j < k < d.len() implies !(#[trigger] spec_parse_header(d[k]) matches Ok(p)
            && p.0 == name) by {
            assert(d[k] == options[k]);
        }
        assert(d[j] == options[j]);
        lemma_options_map_last(d, name, j);
        assert(!(spec_parse_header(options[options.len() - 1]) matches Ok(p) && p.0 == name));
    }
}

/// Law: a name that no option that parses gives is not in the map.
pub proof fn lemma_options_map_absent(options: Seq<Seq<char>>, name: Seq<char>)
    requires
        forall|k: int|
            0 <= k < options.len() ==> !(#[trigger] spec_parse_header(options[k]) matches Ok(p) && p.0
                == name),
    ensures
        !options_map(options).contains_key(name),
    decreases options.len(),
{
    if options.len() > 0 {
        let d = options.drop_last();
        assert forall|k: int| 0 <= k < d.len() implies !(#[trigger] spec_parse_header(d[k]) matches Ok(p)
            && p.0 == name) by {
            assert(d[k] == options[k]);
        }
        lemma_options_map_absent(d, name);
        assert(!(spec_parse_header(options[options.len() - 1]) matches Ok(p) && p.0 == name));
    }
}

} // verus!
