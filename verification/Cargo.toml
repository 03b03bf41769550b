[package]
name = "ash"
version = "0.1.0"
edition = "2021"
publish = false

[dependencies]
clap = { version = "4", features = ["derive"] }
clap_complete = "4"
const_format = "0.2"
dialoguer = { version = "0.11", features = ["fuzzy-select"] }
directories = "5"
eyre = "0.6"
fuzzy-matcher = "0.3"
itertools = "0.12"
serde = { version = "1", features = ["derive"] }
serde_json = "1"
