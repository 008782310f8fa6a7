[package]
name = "isar_core"
version = "0.1.0"
edition = "2021"
publish = false

[dependencies]
libsqlite3-sys = { version = "*", features = ["bundled"] }
