[package]
name = "stash"
version = "0.1.0"
edition = "2021"
publish = false

[dependencies]
differential-dataflow = "=0.25.1"
bytes = "=1.12.1"
unicase = "=2.10.0"
serde_json = "=1.0.154"
serde = { version = "=1.0.229", features = ["derive"] }
rusqlite = "=0.41.0"
anyhow = "=1.0.104"
tokio = { version = "=1.54.1", features = ["fs", "io-util", "net", "rt"] }
tokio-util = { version = "=0.7.20", features = ["codec"] }
async-trait = "=0.1.92"
futures = "=0.3.34"
reqwest = { version = "=0.13.5", features = ["json", "native-tls"] }
native-tls = "=0.2.18"
openssl = "=0.10.81"
prometheus = "=0.14.0"
tracing = "=0.1.44"
kube = "=3.1.0"
k8s-openapi = { version = "=0.27.1", features = ["latest"] }
