[package]
name = "imsg"
version = "0.1.0"
edition = "2021"
publish = false

[dependencies]
anyhow = "=1.0.104"
axum = { version = "=0.8.9", features = ["ws", "multipart"] }
chrono = "=0.4.45"
clap = { version = "=4.6.7", features = ["derive", "env"] }
crossterm = { version = "=0.28.1", features = ["event-stream"] }
emojis = "=0.9.1"
futures-util = "0.3"
imessage-database = "=4.3.0"
mime_guess = "=2.0.5"
rand = "=0.9.5"
ratatui = "=0.29.0"
reqwest = { version = "0.12", default-features = false, features = ["json", "multipart"] }
serde = { version = "1", features = ["derive"] }
rusqlite = "*"
serde_json = "=1.0.154"
tokio = { version = "1", features = ["full"] }
tokio-tungstenite = "=0.29.0"
tower = { version = "0.5", features = ["util"] }
tower-http = { version = "0.6", features = ["cors", "fs"] }
tracing = "0.1"
tracing-subscriber = { version = "0.3", features = ["env-filter"] }
tui-textarea = "=0.7.0"
unicode-width = "=0.2.0"
