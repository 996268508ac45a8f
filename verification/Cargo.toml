[package]
name = "tophat"
version = "0.1.0"
edition = "2021"
publish = false

[dependencies]
cookie = "=0.18.2"
jsonwebtoken = { version = "=11.1.0", features = ["rust_crypto"] }
serde_json = "=1.0.151"
time = "=0.3.55"
futures-lite = "=2.6.1"
futures-timer = "=3.0.4"
path-tree = "=0.8.3"
type-map = "=0.5.1"
async-dup = "=1.2.4"
