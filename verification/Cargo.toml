[package]
name = "zwiesel"
version = "0.1.0"
edition = "2021"
publish = false

[dependencies]
bincode = "1"
bytes = "1"
futures = "0.3"
rand = "0.8"
thiserror = "1"
tokio = { version = "1", features = ["macros", "net", "rt", "rt-multi-thread", "sync"] }
tokio-util = { version = "0.7", features = ["codec"] }
