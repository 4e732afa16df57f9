[package]
name = "rstrouter"
version = "0.1.0"
edition = "2021"
publish = false

[dependencies]
serde_yaml_ng = "*"
serde_json = "*"
rquickjs = "*"
rquickjs-serde = "*"
serde = { version = "*", features = ["derive"] }
serde_urlencoded = "*"
axum = "*"
tokio = { version = "*", features = ["full"] }
reqwest = { version = "*", features = ["json"] }
log = "*"
log4rs = "*"
itertools = "*"
