[package]
name = "wordsearch"
version = "0.1.0"
edition = "2021"
publish = false

[dependencies]
rand = "0.8"
widestring = "1"
itertools = "0.12"
textwrap = "0.16"
build_html = "2"
clap = { version = "4", features = ["derive"] }
serde = { version = "1", features = ["derive"] }
serde_yaml = "0.9"
