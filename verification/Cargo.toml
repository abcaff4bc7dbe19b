[package]
name = "pvcli"
version = "0.1.0"
edition = "2021"
publish = false

[dependencies]
octets = "0.3"
hpke = { version = "0.12", features = ["alloc", "p256", "p384", "x25519"] }
hkdf = "0.12"
sha2 = "0.10"
aead = "0.5"
aes-gcm = "0.10"
chacha20poly1305 = "0.10"
http = "1"
hex = "0.4"
rand = "0.8"
bytes = "1"
futures = "0.3"
tokio = { version = "1", features = ["rt-multi-thread", "macros", "net", "time", "io-util"] }
hyper = { version = "1", features = ["client", "http1", "http2"] }
hyper-util = { version = "0.1", features = ["tokio"] }
http-body = "1"
http-body-util = "0.1"
url = "2"
clap = { version = "4", features = ["derive"] }
thiserror = "2"
color-eyre = "0.6"
