[package]
name = "picante"
version = "0.1.0"
edition = "2021"
publish = false

[dependencies]
dashmap = "*"
facet = "*"
facet-postcard = "*"
futures = "*"
tokio = { version = "*", features = ["sync", "fs", "rt", "rt-multi-thread", "time"] }
