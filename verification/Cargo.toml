[package]
name = "depnav"
version = "0.1.0"
edition = "2021"
publish = false

[dependencies]
serde_json = "1"
serde = { version = "1", features = ["derive"] }
clap = { version = "4", features = ["derive"] }
open = "5"
ratatui = { version = "0.29", features = ["serde"] }
tui-textarea = "0.7"
thiserror = "1"
