[package]
name = "a2fa_daemon"
version = "0.1.0"
edition = "2021"
publish = false

[dependencies]
anyhow = "1"
flate2 = "1"
fs2 = "0.4"
log = "0.4"
serde_json = "1"
signal-hook = "0.3"
simplelog = "0.12"
