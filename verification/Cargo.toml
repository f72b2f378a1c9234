[package]
name = "seqr"
version = "0.1.0"
edition = "2021"
publish = false

[dependencies]
chacha20poly1305 = "=0.10.1"
rand_core = { version = "=0.6.4", features = ["getrandom"] }
getrandom = "=0.2.17"
x25519-dalek = { version = "=2.0.1", features = ["static_secrets"] }
ed25519-dalek = { version = "=2.2.0", features = ["rand_core"] }
hkdf = "=0.12.4"
sha2 = "=0.10.9"
argon2 = "=0.5.3"
base64 = "=0.22.1"
hex = "=0.4.3"
serde = { version = "=1.0.229", features = ["derive"] }
serde_json = "=1.0.154"
axum = "=0.7.9"
tokio = { version = "=1.54.1", features = ["macros", "rt-multi-thread", "net", "signal", "time"] }
reqwest = { version = "=0.12.28", default-features = false, features = ["json", "rustls-tls"] }
