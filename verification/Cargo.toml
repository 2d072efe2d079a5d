[package]
name = "objstore"
version = "0.1.0"
edition = "2021"
publish = false

[dependencies]
hex = "=0.4.3"
url = "=2.5.8"
rmp-serde = "=1.3.1"
serde = { version = "=1.0.229", features = ["derive"] }
sha2 = "=0.10.9"
hyper = { version = "=0.14.32", features = ["server", "http1", "tcp", "stream"] }
futures = "=0.3.34"
async-trait = "=0.1.92"
httpdate = "=1.0.3"
