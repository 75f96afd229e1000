[package]
name = "nzskkserv"
version = "0.1.0"
edition = "2021"
publish = false

[dependencies]
encoding_rs = "*"
urlencoding = "*"
sanitize-filename = "*"
url = "*"
tokio = { version = "*", features = ["rt", "rt-multi-thread", "net", "fs", "io-util", "sync", "time", "macros"] }
tokio-util = { version = "*", features = ["codec"] }
futures = "*"
bytes = "*"
reqwest = { version = "*", default-features = false, features = ["json"] }
serde = { version = "*", features = ["derive"] }
toml = "*"
directories = "*"
