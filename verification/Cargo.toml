[package]
name = "insub"
version = "0.1.0"
edition = "2021"
publish = false

[dependencies]
argon2 = "0.5"
bip39 = { version = "2", features = ["rand"] }
chacha20poly1305 = "0.10"
ed25519-dalek = "2"
hex = "0.4"
hkdf = "0.12"
rand = "*"
rand_core = { version = "0.6", features = ["getrandom"] }
sha2 = "0.10"
snow = "*"
x25519-dalek = { version = "2", features = ["static_secrets"] }
zeroize = "1"
