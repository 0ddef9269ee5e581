[package]
name = "mini_runtime"
version = "0.1.0"
edition = "2021"
publish = false

[dependencies]
mio = { version = "0.8", features = ["os-poll", "net"] }
futures = "0.3"
futures-core = "0.3"
futures-io = "0.3"
