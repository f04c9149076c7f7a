[package]
name = "nomino"
version = "0.1.0"
edition = "2021"
publish = false

[dependencies]
regex = "1"
serde_json = { version = "1", features = ["preserve_order"] }
atty = "0.2"
clap = "2"
colored = "2"
prettytable-rs = { version = "0.10", default-features = false }
