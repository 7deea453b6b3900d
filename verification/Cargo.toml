[package]
name = "tace"
version = "0.1.0"
edition = "2021"
publish = false

[dependencies]
p256 = { version = "0.13", features = ["ecdsa", "ecdh"] }
ecdsa = "0.16"
aes-gcm = "0.10"
hkdf = "0.12"
sha2 = "0.10"
sha1 = "0.10"
hex = "0.4"
rand_core = { version = "0.6", features = ["getrandom"] }
rand = "0.8"
num-bigint = "0.4"
num-traits = "0.2"
serde = { version = "1", features = ["derive"] }
bincode = "1.3"
serde_json = "1"
humantime-serde = "1"
tokio = { version = "1", features = ["full"] }
hyper = { version = "1", features = ["server", "client", "http1"] }
hyper-util = { version = "0.1", features = ["tokio", "client-legacy", "http1"] }
http-body-util = "0.1"
bytes = "1"
hyper-tls = "0.6"
rusqlite = { version = "0.31", features = ["bundled"] }
log = "0.4"
env_logger = "0.11"
async-trait = "0.1"
wasm-bindgen = "0.2"
web-sys = { version = "0.3", features = ["console"] }
