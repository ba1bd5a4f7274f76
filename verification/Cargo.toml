[package]
name = "vigia"
version = "0.1.0"
edition = "2021"
publish = false

[dependencies]
ratatui = "*"
tachyonfx = "*"
ratatui-textarea = "*"
serde_json = "1"
libc = "0.2"
