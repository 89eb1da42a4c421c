[package]
name = "zkryptium"
version = "0.1.0"
edition = "2021"
publish = false

[dependencies]
bls12_381_plus = "=0.8.18"
elliptic-curve = { version = "=0.13.8", features = ["hash2curve"] }
digest = "=0.10.7"
sha2 = "=0.10.9"
sha3 = "=0.10.9"
hex = "=0.4.3"
serde = { version = "=1.0.229", features = ["derive"] }
serde_json = "=1.0.154"
rug = { version = "=1.30.0", default-features = false, features = ["integer", "rand"] }
num-prime = "=0.4.4"
num-integer = "=0.1.47"
num-bigint = { version = "=0.4.8", features = ["rand"] }
num-traits = "=0.2.19"
rand = "=0.8.8"
