[package]
name = "todo_tasks"
version = "0.1.0"
edition = "2021"
publish = false

[dependencies]
clap = "=2.34.0"

[dev-dependencies]
serde_json = { version = "=1.0.151", features = ["preserve_order"] }
