[package]
name = "vocab_drill"
version = "0.1.0"
edition = "2021"
publish = false

[dependencies]
csv = "1"
rand = "0.8"
clap = { version = "4", features = ["derive"] }
clap_complete = "4"
log = "0.4"
simplelog = "0.12"
