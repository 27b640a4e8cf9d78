[package]
name = "server"
version = "0.1.0"
edition = "2021"
publish = false

[dependencies]
futures-util = "0.3"
noise = "0.9"
rusqlite = { version = "*", features = ["bundled"] }
serde = { version = "1", features = ["derive"] }
serde_json = "1"
specs = "*"
strum_macros = "*"
tokio = { version = "1", features = ["full"] }
tokio-tungstenite = "*"
tungstenite = "*"
