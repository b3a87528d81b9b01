# mcp-cli

`mcp` is an interactive terminal inspector for Model Context Protocol servers:
it connects to a server over stdio or Streamable HTTP, lists its tools and
resources, and offers a shell for calling tools, reading resources, sending
raw requests and inspecting schemas.

## Layout

- `src/` is the library, written in Verus. Its functions carry contracts that
  Verus proves, except the few `#[verifier::external_body]` wrappers around
  `serde_json`, `shlex`, `nu-ansi-term`, `http` and `String::push`: their
  contracts are trusted, and each one's doc comment says what it claims of
  the outside code.
  - `cli.rs`: the command line, its header options and bearer token source,
    and the transport they make.
  - `transport.rs`: transport settings and the checks that HTTP header names
    and values pass.
  - `repl.rs`, `repl_types.rs`: the shell's command language, tool argument
    parsing, the help text and tab completion.
  - `shell.rs`: what each command shows or asks of the server, what the read
    loop does with each line or key it reads, and how notifications and the
    prompt look.
  - `format.rs`: rendering of listings, schemas, tool results and resources,
    plain, colored or as JSON.
  - `session.rs`: the decisions a session makes on plain values: tool call
    arguments, which lists a refresh fetches and their name order, lookups by
    name, and the queue of notifications.
  - `json.rs`, `mcp.rs`, `text.rs`, `order.rs`: JSON values, the protocol's
    primitives as plain values, text operations and string order.
- `app/` is the program around the library: argument parsing, the protocol
  session, the line editor and the terminal.
- `tests/` runs the library on concrete inputs.
