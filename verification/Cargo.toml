[package]
name = "lights"
version = "0.1.0"
edition = "2021"
publish = false

[dependencies]
serde = { version = "=1.0.229", features = ["derive"] }
serde_json = "=1.0.151"
futures = "=0.3.34"
smol = "=2.0.2"
surf = "=2.3.2"
warp = { version = "=0.4.3", features = ["server"] }
uuid = { version = "=1.27.0", features = ["v4"] }
async-compat = "=0.2.6"
