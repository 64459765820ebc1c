[package]
name = "text_language_server"
version = "0.1.0"
edition = "2021"
publish = false

[dependencies]
scc = "*"
unescaper = "*"
chrono = "*"
serde_json = "*"
tokio = { version = "*", features = ["rt-multi-thread", "macros", "io-std"] }
tower-lsp = "*"
