[package]
name = "hardlight"
version = "0.1.0"
edition = "2021"
publish = false

[dependencies]
async-trait = "=0.1.92"
futures-util = "=0.3.34"
parking_lot = "=0.12.5"
rcgen = "=0.10.0"
rkyv = { version = "=0.7.46", features = ["validation"] }
rustls-native-certs = "=0.6.3"
tokio = { version = "=1.53.2", features = ["full"] }
tokio-rustls = { version = "=0.23.4", features = ["dangerous_configuration"] }
tokio-tungstenite = { version = "=0.18.0", features = ["rustls-tls-native-roots"] }
tracing = "=0.1.44"
tracing-subscriber = "=0.3.23"
version = "=3.0.0"
