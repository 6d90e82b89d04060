[package]
name = "request"
version = "0.1.0"
edition = "2021"
publish = false

[dependencies]
cookie = { version = "0.18", features = ["percent-encode"] }
futures = { version = "0.3", default-features = false, features = ["std"] }
http = "1"
hyper = { version = "1", default-features = false }
ref-swap = "0.1"
state = "0.6"
