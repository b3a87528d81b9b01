[package]
name = "mcp-cli"
version = "0.1.0"
edition = "2021"
publish = false

[dependencies]
anyhow = "=1.0.104"
clap = { version = "=4.6.7", features = ["derive"] }
dirs = "=7.0.0"
http = "=1.5.0"
nu-ansi-term = "=0.50.3"
reedline = "=0.52.1"
reqwest = "=0.13.5"
rmcp = { version = "=3.8.0", features = ["client", "transport-child-process", "transport-streamable-http-client-reqwest", "reqwest"] }
rpassword = "=7.5.4"
serde = { version = "=1.0.229", features = ["derive"] }
serde_json = "=1.0.154"
shlex = "=1.3.0"
thiserror = "=2.0.21"
tokio = { version = "=1.54.1", features = ["full"] }
tracing-subscriber = { version = "=0.3.23", features = ["env-filter"] }
