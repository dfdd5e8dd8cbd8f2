[package]
name = "lyng2"
version = "0.1.0"
edition = "2021"
publish = false

[dependencies]
bigdecimal = "=0.4.11"
serde = { version = "=1.0.229", features = ["derive"] }
ron = "=0.12.2"
warp = { version = "=0.4.3", features = ["server", "websocket"] }
tokio = { version = "=1.54.1", features = ["full"] }
futures-util = "=0.3.34"
log = "=0.4.34"
