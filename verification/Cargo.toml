[package]
name = "rschat"
version = "0.1.0"
edition = "2021"
publish = false

[dependencies]
serde_json = "1"
rand = "0.9"
tokio = { version = "1", features = ["net", "sync", "rt-multi-thread", "macros", "io-util"] }
clap = { version = "4", features = ["derive"] }
colored = "2"
chrono = "0.4"
ratatui = "0.29"
tui-textarea = "0.7"
