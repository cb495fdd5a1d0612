[package]
name = "mini-swe-agent"
version = "0.1.0"
edition = "2021"
publish = false

[dependencies]
async-openai = "=0.27.2"
futures = "=0.3.34"
tokio = { version = "=1.54.1", features = ["full"] }
anyhow = "=1.0.104"
serde = { version = "=1.0.229", features = ["derive"] }
crossterm = "=0.28.1"
ratatui = { version = "=0.29.0", features = ["unstable-rendered-line-info"] }
tui-textarea = "=0.7.0"
