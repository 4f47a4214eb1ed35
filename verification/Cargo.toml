[package]
name = "gpt_editor"
version = "0.1.0"
edition = "2021"
publish = false

[dependencies]
sled = "=0.34.7"
uuid = { version = "=1.27.0", features = ["v4"] }
chrono = "=0.4.45"
sys-locale = "=0.3.2"
serde = { version = "=1.0.229", features = ["derive"] }
serde_json = "=1.0.151"
secrecy = { version = "=0.10.3", features = ["serde"] }
directories = "=6.0.0"
async-openai = { version = "=0.42.1", features = ["chat-completion", "model"] }
futures-util = "=0.3.34"
tokio = { version = "=1.53.2", features = ["rt", "macros"] }
tracing = "=0.1.44"
