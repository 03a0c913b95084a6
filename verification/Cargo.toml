[package]
name = "avro_container"
version = "0.1.0"
edition = "2021"
publish = false

[dependencies]
libflate = "2"
num-bigint = "0.4"
num-traits = "0.2"
rand = "0.8"
serde = "1"
serde_json = "1"
snap = "1"
