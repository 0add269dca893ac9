[package]
name = "zkcomp"
version = "0.1.0"
edition = "2021"
publish = false

[dependencies]
rand = "0.8"
ring = "*"
serde = "*"
serde_derive = "*"
serde_json = "*"
num = "*"
untrusted = "*"
sodiumoxide = "*"
zksnark = "*"
