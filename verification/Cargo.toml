[package]
name = "rolling_volatility"
version = "0.1.0"
edition = "2021"
publish = false

[dependencies]
ethabi = "18"
futures-util = "0.3"
hyper = { version = "0.14", features = ["full"] }
log = "0.4"
primitive-types = "0.12"
prometheus = { version = "0.13", default-features = false }
serde_json = "1"
tokio = { version = "1", features = ["full"] }
tokio-tungstenite = { version = "0.20", features = ["native-tls"] }
tracing = "0.1"
tracing-appender = "0.2"
tracing-subscriber = "0.3"
web3 = { version = "0.19", default-features = false, features = ["ws-tls-tokio"] }
