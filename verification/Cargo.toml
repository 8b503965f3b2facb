[package]
name = "xattr_json"
version = "0.1.0"
edition = "2021"
publish = false

[dependencies]
base64 = "*"
clap = { version = "*", features = ["derive"] }
futures = "*"
tokio = { version = "*", features = ["rt-multi-thread", "macros"] }
xattr = "*"

[dev-dependencies]
serde_json = "*"
