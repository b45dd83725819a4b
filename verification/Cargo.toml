[package]
name = "syswatch"
version = "0.1.0"
edition = "2021"
publish = false

[dependencies]
textwrap = "=0.16.4"
ratatui = { version = "=0.30.2", default-features = false, features = ["crossterm", "unstable-rendered-line-info"] }
crossterm = "=0.29.0"
sysinfo = "=0.39.6"
chrono = "=0.4.45"
color-eyre = { version = "=0.6.5", default-features = false }
directories = "=6.0.0"
serde = { version = "=1.0.229", features = ["derive"] }
toml = "=0.9.12"
