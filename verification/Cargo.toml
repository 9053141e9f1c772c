[package]
name = "mum"
version = "0.1.0"
edition = "2021"
publish = false

[dependencies]
bincode = "1.3"
byteorder = "1"
crc = "1.8"
indexmap = { version = "1", features = ["serde-1"] }
itertools = "0.7"
protobuf = "2"
raft = "0.4"
futures = "0.1"
fs2 = "0.4"
grpcio = "0.4"
log = "0.4"
env_logger = "0.5"
structopt = "0.2"
tokio = "0.1"
