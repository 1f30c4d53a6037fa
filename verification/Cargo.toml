[package]
name = "amon"
version = "0.1.0"
edition = "2021"
publish = false

[dependencies]
getrandom = "0.2"
bip39 = "2"
bip32 = "0.5"
k256 = "0.13"
ed25519-dalek = "2"
sha2 = "0.10"
ripemd = "0.1"
hmac = "0.12"
pbkdf2 = "0.12"
chacha20poly1305 = "0.10"
abscissa_core = "*"
clap = { version = "4", features = ["derive"] }
dirs-next = "2"
serde = { version = "1", features = ["derive"] }
serde_json = "1"
tracing = "0.1"
