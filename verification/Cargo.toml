[package]
name = "kubex"
version = "0.1.0"
edition = "2021"
publish = false

[dependencies]
anyhow = "*"
clap = "*"
clap_complete = { version = "*", features = ["unstable-dynamic"] }
dirs = "*"
futures = "*"
k8s-openapi = { version = "*", features = ["latest"] }
kube = "*"
serde = { version = "*", features = ["derive"] }
serde_json = "*"
tokio = { version = "*", features = ["rt", "time"] }
