[package]
name = "unipotato"
version = "0.1.3"
edition = "2021"
publish = false

[dependencies]
hyper = { version = "1", features = ["server", "http1"] }
hyper-util = { version = "0.1", features = ["tokio"] }
http-body-util = "0.1"
bytes = "1"
tokio = { version = "1", features = ["rt-multi-thread", "net", "macros"] }
regex = "1"
memchr = "2"
smallvec = "1"
lru = "0.12"
urlencoding = "2"
serde = "1"
serde_json = "1"
chrono = "0.4"
notify = "6"
once_cell = "1"
dashmap = "6"
