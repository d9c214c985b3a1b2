[package]
name = "reflex_outbound"
version = "0.1.0"
edition = "2021"
publish = false

[dependencies]
aes-gcm = "0.10"
anyhow = "1"
async-trait = "0.1"
base64 = "0.22"
bytes = "1"
chacha20poly1305 = "0.10"
dashmap = "6"
dirs = "5"
futures-util = "0.3"
h2 = "0.4"
hex = "0.4"
hmac = "0.12"
http = "1"
httparse = "1"
libc = "0.2"
portable-atomic = "1"
quinn = { version = "0.11", default-features = false, features = ["rustls-ring", "runtime-tokio"] }
rand = "0.8"
russh = "0.51"
rustls = { version = "0.23", default-features = false, features = ["ring", "std", "tls12", "logging"] }
rustls-native-certs = "0.8"
rustls-pemfile = "2"
serde = { version = "1", features = ["derive"] }
sha2 = "0.10"
socket2 = "0.5"
tokio = { version = "1", features = ["full"] }
tokio-rustls = { version = "0.26", default-features = false, features = ["ring", "tls12", "logging"] }
totp-rs = "5"
tracing = "0.1"
x25519-dalek = { version = "2", features = ["static_secrets"] }
