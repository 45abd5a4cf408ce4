[package]
name = "taskmgr_core"
version = "0.1.0"
edition = "2021"
publish = false

[dependencies]
anyhow = "1"
crossterm = "0.28"
ratatui = "0.29"
sysinfo = "0.32"
nix = { version = "0.29", features = ["signal"] }
zbus = "4"
serde = "1"
thiserror = "1"
