[package]
name = "tipt_node"
version = "0.1.0"
edition = "2021"
publish = false

[dependencies]
byteorder = "=1.5.0"
clap = "=2.34.0"
fern = "=0.5.9"
futures = "=0.1.31"
hyper = "=0.10.16"
lazy_static = "=1.5.1"
log = "=0.4.35"
parking_lot = "=0.7.1"
rmp = "=0.8.9"
rmp-serde = "=0.14.4"
semver = { version = "=0.9.0", features = ["serde"] }
serde = { version = "=1.0.229", features = ["derive"] }
serde_derive = "=1.0.229"
time = "=0.1.45"
tokio = "=0.1.22"
websocket = { version = "=0.22.4", default-features = false, features = ["async"] }
