[package]
name = "openhawk"
version = "0.1.0"
edition = "2021"
publish = false

[dependencies]
sha2 = "=0.10.9"
hex = "=0.4.3"
aes-gcm = "=0.10.3"
argon2 = "=0.5.3"
rand = "=0.8.8"
chrono = "=0.4.45"
glob = "=0.3.4"
serde = { version = "=1.0.229", features = ["derive"] }
serde_json = "=1.0.154"
toml = "=0.8.23"
toml_edit = "=0.22.27"
clap = { version = "=4.6.7", features = ["derive"] }
anyhow = "=1.0.104"
thiserror = "=1.0.69"
dirs-next = "=2.0.0"
rusqlite = { version = "=0.31.0", features = ["bundled"] }
uuid = { version = "=1.29.0", features = ["v4"] }
crossterm = "=0.27.0"
tokio = { version = "=1.54.1", features = ["full"] }
walkdir = "=2.5.0"
ratatui = "0.26"
sysinfo = "0.30"
nix = { version = "0.28", features = ["signal"] }
keyring = "2"
libc = "0.2"
