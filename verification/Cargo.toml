[package]
name = "piper_speechd"
version = "0.1.0"
edition = "2021"
publish = false

[dependencies]
anyhow = "*"
fern = "*"
log = "*"
log-reload = "*"
piper-rs = "*"
serde_json = "*"
xdg = "*"
