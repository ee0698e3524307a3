[package]
name = "wordle_core"
version = "0.1.0"
edition = "2021"
publish = false

[dependencies]
uuid = { version = "*", features = ["v4"] }
juniper = "*"
juniper_rocket = "*"
rocket = { version = "*", features = ["json"] }
rocket_db_pools = { version = "*", features = ["mongodb"] }
rocket_cors = "*"
serde = { version = "*", features = ["derive"] }
serde_json = "*"
lazy_static = "*"
tokio = { version = "*", features = ["sync"] }
crossbeam-channel = "*"
reqwest = { version = "*", default-features = false, features = ["json"] }
asserting = "*"
