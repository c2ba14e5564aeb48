[package]
name = "termul"
version = "0.1.0"
edition = "2021"
publish = false

[dependencies]
anyhow = "1"
base64 = "0.22"
crossterm = "0.29"
dirs = "*"
ignore = "0.4"
libc = "0.2"
libghostty-vt = "*"
nucleo-matcher = "0.3"
portable-pty = "0.9"
ratatui = "*"
rusqlite = { version = "*", features = ["bundled"] }
serde = { version = "1", features = ["derive"] }
toml = "*"
