//! Inspect and debug MCP servers: the verified core of the inspector's
//! command line, REPL and output rendering.
pub mod cli;
pub mod format;
pub mod json;
pub mod mcp;
pub mod order;
pub mod repl;
pub mod repl_types;
pub mod session;
pub mod shell;
pub mod text;
pub mod transport;
