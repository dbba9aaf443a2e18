[package]
name = "kzg10"
version = "0.1.0"
edition = "2021"
publish = false

[dependencies]
rand = "0.8"
rand_core = "0.6"
snarkvm-algorithms = "0.7"
snarkvm-curves = "0.7"
snarkvm-fields = "0.7"
snarkvm-utilities = "0.7"
