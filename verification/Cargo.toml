[package]
name = "imap_core"
version = "0.1.0"
edition = "2021"
publish = false

[dependencies]
chrono = "0.4"
native-tls = "0.2"
