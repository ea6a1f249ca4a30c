[package]
name = "linkerd-trace"
version = "0.1.0"
edition = "2021"
publish = false

[dependencies]
anyhow = "1"
futures = "0.3"
indexmap = "=2.14.2"
k8s-openapi = { version = "=0.29.0", features = ["latest"] }
kube = { version = "=5.0.0", default-features = false, features = ["client", "ring", "rustls-tls", "ws"] }
linkerd2-proxy-api = { version = "=0.20.0", features = ["destination", "outbound"] }
termtree = "=0.5.1"
tokio = { version = "1", features = ["io-util", "macros", "net", "rt-multi-thread", "signal", "time"] }
tokio-stream = { version = "0.1", features = ["net"] }
tonic = { version = "=0.14.9", features = ["tls-ring"] }
tracing = "0.1"
tracing-subscriber = "0.3"
