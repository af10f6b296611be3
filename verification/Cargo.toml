[package]
name = "whoosh"
version = "0.1.0"
edition = "2021"
publish = false

[dependencies]
aes = "0.8"
base64 = "0.22"
blake3 = { version = "1", features = ["pure"] }
cbc = { version = "0.1", features = ["alloc", "block-padding"] }
clap = { version = "4", features = ["derive"] }
flate2 = "1"
hex = "0.4"
hkdf = "0.12"
hmac = "0.12"
hostname = "0.4"
if-addrs = "0.13"
libc = "0.2"
mdns-sd = "0.13"
p256 = { version = "0.13", features = ["ecdh"] }
plist = "1"
prost = "0.13"
quinn = { version = "0.11", default-features = false, features = ["runtime-tokio", "rustls-ring"] }
rand = "0.8"
rcgen = "0.13"
rustls = { version = "0.23", default-features = false, features = ["ring", "std", "tls12", "logging"] }
sha2 = "0.10"
thiserror = "2"
tokio = { version = "1", features = ["full"] }
tokio-rustls = { version = "0.26", default-features = false, features = ["ring", "tls12", "logging"] }
tokio-util = "0.7"
tracing = "0.1"
