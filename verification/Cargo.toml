[package]
name = "net_session"
version = "0.1.0"
edition = "2021"
publish = false

[dependencies]
bytes = "*"
crossbeam-channel = "*"
laminar = "*"
uuid = { version = "*", features = ["v4"] }
