[package]
name = "linemux"
version = "0.3.0"
edition = "2021"
publish = false

[dependencies]
futures-util = { version = "0.3", default-features = false, features = ["std"] }
notify = "5"
pin-project-lite = "0.2"
tokio = { version = "1", features = ["fs", "io-util", "sync"] }
