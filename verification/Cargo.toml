[package]
name = "sched_model"
version = "0.1.0"
edition = "2021"
publish = false

[dependencies]
bstr = { version = "1", default-features = false, features = ["std", "serde"] }
humantime = "2"
serde = { version = "1", features = ["derive"] }
smallvec = { version = "1", features = ["serde"] }
toml = "0.8"
