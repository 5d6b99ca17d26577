[package]
name = "pentarust"
version = "0.1.0"
edition = "2021"
publish = false

[dependencies]
rand = "*"
jni = "*"
lazy_static = "*"
structopt = "*"
rusqlite = { version = "*", features = ["bundled"] }
