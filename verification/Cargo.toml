[package]
name = "fileserver"
version = "0.1.0"
edition = "2021"
publish = false

[dependencies]
clap = { version = "4", features = ["derive"] }
hyper = { version = "0.14", features = ["http1", "server", "runtime", "stream"] }
log = "0.4"
simplelog = "0.12"
tokio = { version = "1", features = ["full"] }
tokio-util = { version = "0.7", features = ["codec"] }
