[package]
name = "genlint"
version = "0.1.0"
edition = "2021"
publish = false

[dependencies]
unicode-width = "*"
annotate-snippets = "*"
clap = { version = "4", features = ["derive"] }
clap_complete = "4"
glob = "0.3"
serde = { version = "1", features = ["derive"] }
serde_json = "1"
serde-partial = "*"
