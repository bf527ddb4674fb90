[package]
name = "json_i18n"
version = "0.1.0"
edition = "2021"
publish = false

[dependencies]
serde_json = "1"
clap = { version = "4", features = ["derive"] }
colored = "*"
tabled = "*"
reqwest = { version = "*", default-features = false, features = ["blocking", "json"] }
ring = "*"
hex = "*"
chrono = "*"
