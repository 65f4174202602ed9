[package]
name = "ffkit"
version = "0.1.0"
edition = "2021"
publish = false

[dependencies]
anyhow = "1"
arboard = { version = "3.6", default-features = false }
clap = { version = "4", features = ["derive"] }
crossterm = "0.29"
directories = "6"
image = { version = "*", default-features = false, features = ["jpeg", "png"] }
ratatui = "0.30"
serde = { version = "1", features = ["derive"] }
serde_json = "1"
thiserror = "2"
tokio = { version = "1", features = ["full"] }
toml = "1.1"
tracing = "0.1"
tracing-subscriber = { version = "0.3", features = ["env-filter"] }
tui-input = "0.15"
which = "8"
