[package]
name = "nube_sync"
version = "0.1.0"
edition = "2021"
publish = false

[dependencies]
chrono = { version = "0.4", features = ["serde"] }
clap = { version = "4", features = ["derive"] }
reqwest_dav = "*"
serde = { version = "1", features = ["derive"] }
serde_json = "1"
tokio = { version = "1", features = ["fs", "time", "macros", "rt-multi-thread"] }
toml = "*"
url = { version = "2", features = ["serde"] }
urlencoding = "2"
