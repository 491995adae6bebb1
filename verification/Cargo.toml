[package]
name = "signal_ops"
version = "0.1.0"
edition = "2021"
publish = false

[dependencies]
deno_core = "0.75"
idna = "0.2"
serde = { version = "1", features = ["derive"] }
serde_json = "1"
tokio = { version = "1", features = ["signal", "rt", "macros", "sync"] }
