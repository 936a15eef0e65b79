[package]
name = "opnsense_bind9"
version = "0.1.0"
edition = "2021"
publish = false

[dependencies]
chrono = "*"
serde_json = "*"
inline_colorization = "*"
reqwest = { version = "*", default-features = false, features = ["blocking", "json"] }
