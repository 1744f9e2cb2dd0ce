[package]
name = "wildbits"
version = "0.1.0"
edition = "2021"
publish = false

[dependencies]
backtrace = "0.3"
botw-utils = "=0.3.1"
crc = "=1.8.1"
glob = "0.3"
once_cell = "1"
rayon = "1"
roead = { version = "=1.0.0", default-features = false, features = ["aamp", "byml", "sarc", "yaml"] }
rstb = "0.2.2"
sarc-rs = "=0.1.5"
serde = { version = "1", features = ["derive"] }
serde_json = "1"
serde_yaml = "0.9"
yaz0 = "=0.3.0"
