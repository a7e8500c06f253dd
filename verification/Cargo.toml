[package]
name = "picoboot"
version = "0.2.6"
edition = "2021"
publish = false

[dependencies]
nusb = { version = "0.2", features = ["tokio"] }
rustix = { version = "1", features = ["std"] }
log = "0.4"
airfrog-rpc = "0.1"

[dev-dependencies]
deku = "0.20"
