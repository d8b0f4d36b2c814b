[package]
name = "avromatic"
version = "0.1.0"
edition = "2021"
publish = false

[dependencies]
avro-rs = "*"
byteorder = "1"
failure = "0.1"
lazy_static = "1"
rutie = "*"
serde_json = "1"
sha2 = "0.9"
