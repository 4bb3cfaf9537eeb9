[package]
name = "haystack_ui"
version = "0.1.0"
edition = "2021"
publish = false

[dependencies]
aho-corasick = "=1.1.5"
serde_json = "=1.0.154"
serde = { version = "1", features = ["derive"] }
fs2 = "0.4"
rand = "0.8"
crossbeam-channel = "0.5"
