[package]
name = "rupost"
version = "0.1.0"
edition = "2021"
publish = false

[dependencies]
serde_json = "*"
pulldown-cmark = "*"
url = "*"
serde = { version = "*", features = ["derive"] }
toml = "*"
chrono = "*"
uuid = { version = "*", features = ["v4"] }
fs2 = "*"
dirs = "*"
clap = { version = "*", features = ["derive"] }
tokio = { version = "*", features = ["rt-multi-thread", "macros", "time"] }
reqwest = { version = "*", default-features = false }
