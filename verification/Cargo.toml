[package]
name = "uncoauthor"
version = "0.1.0"
edition = "2021"
publish = false

[dependencies]
clap = { version = "4", features = ["derive"] }
clap_complete = "4"
dialoguer = { version = "0.11", features = ["fuzzy-select"] }
