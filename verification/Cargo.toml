[package]
name = "modelmux"
version = "0.1.0"
edition = "2021"
publish = false

[dependencies]
sha2 = "*"
hex = "*"
rand = "*"
serde = { version = "*", features = ["derive"] }
serde_json = "*"
tokio = { version = "*", features = ["full"] }
axum = "*"
hyper = { version = "*", features = ["full"] }
hyper-util = { version = "*", features = ["full"] }
http = "*"
http-body-util = "*"
hickory-resolver = "*"
humantime = "*"
clap = { version = "*", features = ["derive"] }
futures = "*"
bytes = "*"
tower = { version = "*", features = ["util"] }
