[package]
name = "ichigo"
version = "0.1.0"
edition = "2021"
publish = false

[dependencies]
anyhow = "1"
basic-toml = "0.1"
clap = { version = "4", features = ["derive"] }
colored = "3"
colored_json = "5"
crossterm = "0.28"
image = { version = "0.25", default-features = false, features = ["png", "jpeg", "gif", "webp", "bmp"] }
ratatui = "0.29"
ratatui-image = { version = "8", default-features = false, features = ["crossterm"] }
reqwest = { version = "0.12", default-features = false, features = ["blocking", "rustls-tls"] }
serde = { version = "1", features = ["derive"] }
serde_json = "1"
serde_yaml = "0.9"
serde_yaml_ng = "0.10"
