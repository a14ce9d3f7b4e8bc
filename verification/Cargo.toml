[package]
name = "nu_plist"
version = "0.1.0"
edition = "2021"
publish = false

[dependencies]
chrono = { version = "0.4", default-features = false, features = ["std"] }
nu-plugin = "0.90"
nu-protocol = "0.90"
plist = "1"
