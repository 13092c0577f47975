[package]
name = "shaipot"
version = "1.0.0"
edition = "2021"
publish = false

[dependencies]
clap = { version = "4", features = ["derive"] }
colored = "2"
futures-util = "0.3"
hex = "0.4"
num_cpus = "1"
primitive-types = "0.13"
rand = "0.8"
rand_mt = "4"
serde = { version = "1", features = ["derive"] }
serde_json = "1"
sha2 = "0.10"
tokio = { version = "1", features = ["full"] }
tokio-tungstenite = "0.23"
warp = "0.3"
