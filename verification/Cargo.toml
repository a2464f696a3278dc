[package]
name = "nettables"
version = "0.1.0"
edition = "2021"
publish = false

[dependencies]
nohash-hasher = "=0.2.0"
rmp = "=0.8.15"
rmpv = { version = "=1.3.1", features = ["with-serde"] }
rmp-serde = "=1.3.1"
serde = { version = "=1.0.229", features = ["derive"] }
serde_json = "=1.0.154"
thiserror = "=1.0.69"
tokio = { version = "=1.54.1", features = ["full"] }
tokio-tungstenite = "=0.20.1"
tungstenite = "=0.20.1"
hyper = { version = "=0.14.32", features = ["server", "http1", "tcp"] }
futures-util = { version = "=0.3.34", features = ["sink"] }
parking_lot = "=0.12.5"
tracing = "=0.1.44"
frclib-core = { version = "=0.2.4", features = ["value-union"] }
inventory = "=0.3.15"
