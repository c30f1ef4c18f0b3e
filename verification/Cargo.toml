[package]
name = "lox"
version = "0.1.0"
edition = "2021"
publish = false

[dependencies]
unicode-xid = "0.2"
clap = { version = "=3.0.0-beta.2", features = ["derive"] }
clap_derive = "=3.0.0-beta.2"
