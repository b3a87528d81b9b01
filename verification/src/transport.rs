//! How the inspector reaches a server: a command to spawn with its stdio as
//! the transport, or a Streamable HTTP endpoint with its headers and bearer
//! token; and the checks that HTTP header names and values pass.
use vstd::prelude::*;
use crate::text::{concat, join, join_strings, owned, tail, views};
use vstd::string::StringSliceAdditionalSpecFns;
use vstd::utf8::encode_utf8;

verus! {

/// Why a command line or a transport's settings were refused.
#[derive(Debug)]
pub struct ConfigError {
    pub message: String,
}

impl ConfigError {
    /// An error with `message`.
    pub fn new(message: String) -> (r: Self)
        ensures
            r.message@ == message@,
    {
        ConfigError { message }
    }

    /// The error's message.
    pub fn to_string(&self) -> (r: String)
        ensures
            r@ == self.message@,
    {
        self.message.clone()
    }
}

/// How to reach an MCP server.
#[derive(Debug, Clone, PartialEq, Eq)]
pub enum TransportConfig {
    /// Spawn `command` with `args` and speak MCP over its stdio.
    Stdio { command: String, args: Vec<String> },
    /// Speak MCP over Streamable HTTP to `url`, sending `headers` (each name
    /// once) and the bearer token, if any, with every request.
    StreamableHttp { url: String, headers: Vec<(String, String)>, bearer_token: Option<String> },
}

/// The views of header name and value pairs.
pub open spec fn header_views(hs: Seq<(String, String)>) -> Seq<(Seq<char>, Seq<char>)> {
    hs.map_values(|h: (String, String)| (h.0@, h.1@))
}

/// The mathematical value of a `TransportConfig`.
pub enum TransportModel {
    Stdio { command: Seq<char>, args: Seq<Seq<char>> },
    StreamableHttp {
        url: Seq<char>,
        headers: Seq<(Seq<char>, Seq<char>)>,
        bearer_token: Option<Seq<char>>,
    },
}

impl View for TransportConfig {
    type V = TransportModel;

    open spec fn view(&self) -> TransportModel {
        match self {
            TransportConfig::Stdio { command, args } => TransportModel::Stdio {
                command: command@,
                args: views(args@),
            },
            TransportConfig::StreamableHttp { url, headers, bearer_token } => {
                TransportModel::StreamableHttp {
                    url: url@,
                    headers: header_views(headers@),
                    bearer_token: match bearer_token {
                        Some(t) => Some(t@),
                        None => None,
                    },
                }
            },
        }
    }
}

/// The name a transport is shown by: the command line of a spawned server,
/// its words joined by spaces, or the URL of an HTTP one.
pub open spec fn spec_display_name(t: TransportModel) -> Seq<char> {
    match t {
        TransportModel::Stdio { command, args } => if args.len() == 0 {
            command
        } else {
            join(seq![command] + args, " "@)
        },
        TransportModel::StreamableHttp { url, .. } => url,
    }
}

impl TransportConfig {
    /// The stdio transport that a command line gives: its first word is the
    /// program, the rest its arguments.
    pub fn stdio(command: Vec<String>) -> (r: Result<Self, ConfigError>)
        ensures
            command@.len() == 0 <==> (r is Err),
            r matches Err(e) ==> e.message@ == "missing MCP server command"@,
            r matches Ok(t) ==> t@ == (TransportModel::Stdio {
                command: views(command@)[0],
                args: views(command@).skip(1),
            }),
    {
        if command.len() == 0 {
            return Err(ConfigError::new(owned("missing MCP server command")));
        }
        let program = command[0].clone();
        let args = tail(command.as_slice(), 1);
        Ok(TransportConfig::Stdio { command: program, args })
    }

    /// The name this transport is shown by.
    pub fn display_name(&self) -> (r: String)
        ensures
            r@ == spec_display_name(self@),
    {
        match self {
            TransportConfig::Stdio { command, args } => {
                if args.len() == 0 {
                    return command.clone();
                }
                let mut parts: Vec<String> = Vec::new();
                parts.push(command.clone());
                let mut i: usize = 0;
                while i < args.len()
                    invariant
                        i <= args@.len(),
                        views(parts@) == seq![command@] + views(args@).take(i as int),
                    decreases args@.len() - i,
                {
                    let a = args[i].clone();
                    proof {
                        crate::text::lemma_views_push(parts@, a);
                        assert(views(args@).take(i + 1) =~= views(args@).take(i as int).push(a@));
                    }
                    parts.push(a);
                    proof {
                        assert(seq![command@] + views(args@).take(i + 1) =~= (seq![command@]
                            + views(args@).take(i as int)).push(a@));
                    }
                    i = i + 1;
                }
                assert(views(args@).take(i as int) =~= views(args@));
                join_strings(&parts, " ")
            },
            TransportConfig::StreamableHttp { url, .. } => url.clone(),
        }
    }
}

/// An HTTP header name, as the `http` crate holds it.
#[verifier::external_type_specification]
#[verifier::external_body]
pub struct ExHeaderName(http::HeaderName);

/// An HTTP header value, as the `http` crate holds it.
#[verifier::external_type_specification]
#[verifier::external_body]
pub struct ExHeaderValue(http::HeaderValue);

/// The `http` crate's error for a header name it refuses.
#[verifier::external_type_specification]
#[verifier::external_body]
pub struct ExInvalidHeaderName(http::header::InvalidHeaderName);

/// The `http` crate's error for a header value it refuses.
#[verifier::external_type_specification]
#[verifier::external_body]
pub struct ExInvalidHeaderValue(http::header::InvalidHeaderValue);

/// A byte that may stand in an HTTP header name: a letter, a digit, or one
/// of ``!#$%&'*+-.^_`|~``.
pub open spec fn is_header_name_byte(b: u8) -> bool {
    ||| 48 <= b <= 57
    ||| 65 <= b <= 90
    ||| 97 <= b <= 122
    ||| b == 33
    ||| 35 <= b <= 39
    ||| b == 42
    ||| b == 43
    ||| b == 45
    ||| b == 46
    ||| 94 <= b <= 96
    ||| b == 124
    ||| b == 126
}

/// The bytes of a header name that the `http` crate accepts: at least one
/// and at most 65535 of them, each allowed in a name.
pub open spec fn valid_header_name(bytes: Seq<u8>) -> bool {
    &&& 1 <= bytes.len() <= 65535
    &&& forall|i: int| 0 <= i < bytes.len() ==> is_header_name_byte(#[trigger] bytes[i])
}

/// The bytes of a header value that the `http` crate accepts: none below 32
/// but the tab, and no DEL.
pub open spec fn valid_header_value(bytes: Seq<u8>) -> bool {
    forall|i: int|
        0 <= i < bytes.len() ==> (#[trigger] bytes[i] >= 32 && bytes[i] != 127) || bytes[i] == 9
}

/// `c` with an ASCII capital letter made small.
pub open spec fn ascii_lower(c: char) -> char {
    if 'A' <= c <= 'Z' {
        ((c as u32) + 32) as char
    } else {
        c
    }
}

/// The name as the `http` crate normalises it: in lower case.
pub open spec fn normalized_header_name(name: Seq<char>) -> Seq<char> {
    name.map_values(|c: char| ascii_lower(c))
}

/// `http::HeaderName::from_bytes` on the bytes of `name`, with the name's
/// text as `HeaderName::as_str` gives it. The crate accepts a name of 1 to
/// 65535 bytes that are letters, digits or ``!#$%&'*+-.^_`|~``, and maps its
/// capital letters to small ones.
#[verifier::external_body]
fn header_name(name: &str) -> (r: Result<(http::HeaderName, String), http::header::InvalidHeaderName>)
    ensures
        (r is Ok) <==> valid_header_name(name.spec_bytes()),
        r matches Ok(p) ==> p.1@ == normalized_header_name(name@),
{
    match http::HeaderName::from_bytes(name.as_bytes()) {
        Ok(h) => {
            let text = h.as_str().to_owned();
            Ok((h, text))
        },
        Err(e) => Err(e),
    }
}

/// `http::HeaderValue::from_str`, with the value's bytes as
/// `HeaderValue::as_bytes` gives them. The crate accepts a value none of
/// whose bytes is below 32 (but the tab) or DEL, and keeps a copy of exactly
/// the bytes it was given.
#[verifier::external_body]
fn header_value(value: &str) -> (r: Result<(http::HeaderValue, Vec<u8>), http::header::InvalidHeaderValue>)
    ensures
        (r is Ok) <==> valid_header_value(value.spec_bytes()),
        r matches Ok(p) ==> p.1@ == value.spec_bytes(),
{
    match http::HeaderValue::from_str(value) {
        Ok(v) => {
            let bytes = v.as_bytes().to_vec();
            Ok((v, bytes))
        },
        Err(e) => Err(e),
    }
}

/// The error for the first header whose name or value the `http` crate
/// refuses, if any.
pub open spec fn header_failure(hs: Seq<(Seq<char>, Seq<char>)>) -> Option<Seq<char>>
    decreases hs.len(),
{
    if hs.len() == 0 {
        None
    } else if !valid_header_name(encode_utf8(hs[0].0)) {
        Some("invalid HTTP header name: "@ + hs[0].0)
    } else if !valid_header_value(encode_utf8(hs[0].1)) {
        Some("invalid value for HTTP header: "@ + normalized_header_name(hs[0].0))
    } else {
        header_failure(hs.drop_first())
    }
}

/// An HTTP header as the `http` crate types it, with the text of its name
/// and the bytes of its value.
#[derive(Debug)]
pub struct HttpHeader {
    pub name: http::HeaderName,
    pub value: http::HeaderValue,
    /// The name as the crate normalises it.
    pub name_text: String,
    /// The value's bytes, as the crate holds them.
    pub value_bytes: Vec<u8>,
}

/// Whether `h` is the header that `pair` names: its name normalised, its
/// value's bytes the UTF-8 bytes of the value.
pub open spec fn header_holds(h: HttpHeader, pair: (String, String)) -> bool {
    &&& h.name_text@ == normalized_header_name(pair.0@)
    &&& h.value_bytes@ == encode_utf8(pair.1@)
}

/// The headers as the `http` crate types them, one for each name and value
/// pair and in their order, or the error for the first one it refuses.
pub fn parse_http_headers(headers: &Vec<(String, String)>) -> (r: Result<Vec<HttpHeader>, ConfigError>)
    ensures
        match header_failure(header_views(headers@)) {
            Some(message) => r matches Err(e) && e.message@ == message,
            None => r matches Ok(parsed) && parsed@.len() == headers@.len() && forall|i: int|
                0 <= i < headers@.len() ==> header_holds(#[trigger] parsed@[i], headers@[i]),
        },
{
    let ghost hs = header_views(headers@);
    let mut parsed: Vec<HttpHeader> = Vec::new();
    let mut i: usize = 0;
    assert(hs.skip(0) =~= hs);
    while i < headers.len()
        invariant
            i <= headers@.len(),
            hs == header_views(headers@),
            parsed@.len() == i,
            forall|k: int| 0 <= k < i ==> header_holds(#[trigger] parsed@[k], headers@[k]),
            header_failure(hs) == header_failure(hs.skip(i as int)),
        decreases headers@.len() - i,
    {
        let ghost rest = hs.skip(i as int);
        assert(rest[0] == (headers@[i as int].0@, headers@[i as int].1@));
        assert(rest.drop_first() =~= hs.skip(i + 1));
        let name = match header_name(headers[i].0.as_str()) {
            Ok(p) => p,
            Err(_) => {
                return Err(ConfigError::new(concat("invalid HTTP header name: ", headers[i].0.as_str())));
            },
        };
        let value = match header_value(headers[i].1.as_str()) {
            Ok(v) => v,
            Err(_) => {
                return Err(ConfigError::new(concat("invalid value for HTTP header: ", name.1.as_str())));
            },
        };
        parsed.push(HttpHeader { name: name.0, value: value.0, name_text: name.1, value_bytes: value.1 });
        i = i + 1;
    }
    assert(hs.skip(i as int).len() == 0);
    Ok(parsed)
}

} // verus!
