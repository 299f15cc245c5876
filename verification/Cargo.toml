[package]
name = "cosmic_terminal"
version = "0.1.0"
edition = "2021"
publish = false

[dependencies]
alacritty_terminal = "=0.25.1"
cosmic-text = { version = "=0.19.0", features = ["shape-run-cache"] }
indexmap = "=2.14.2"
log = "0.4"
tokio = { version = "1", features = ["sync"] }
