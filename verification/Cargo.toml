[package]
name = "synedrion"
version = "0.1.0"
edition = "2021"
publish = false

[dependencies]
k256 = "0.13"
sha2 = "0.10"
signature = "2"
num-bigint = "0.4"
rand_core = { version = "0.6", features = ["getrandom"] }
