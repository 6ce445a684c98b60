[package]
name = "skynas"
version = "0.1.0"
edition = "2021"
publish = false

[dependencies]
sha2 = "*"
uuid = { version = "*", features = ["v4"] }
local-ip-address = "*"
serde = { version = "*", features = ["derive"] }
serde_json = "*"
tokio = { version = "*", features = ["full"] }
axum = { version = "*", features = ["ws"] }
clap = { version = "*", features = ["derive"] }
chrono = "*"
dirs = "*"
toml = "*"
anyhow = "*"
qrcode = "*"
