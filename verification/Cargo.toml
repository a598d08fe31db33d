[package]
name = "sinker"
version = "0.1.0"
edition = "2021"
publish = false

[dependencies]
anyhow = "=1.0.104"
clap = { version = "=4.6.7", features = ["derive", "env"] }
futures = "=0.3.34"
http = "=1.5.0"
k8s-openapi = { version = "=0.29.0", features = ["latest", "schemars"] }
kube = { version = "=5.0.0", features = ["runtime", "derive", "client", "unstable-runtime"] }
kubert = { version = "=0.25.0", features = ["clap", "runtime", "prometheus-client"] }
prometheus-client = "=0.23.1"
regex = "=1.13.1"
schemars = "=1.2.3"
serde = { version = "=1.0.229", features = ["derive"] }
serde_json = { version = "=1.0.154", features = ["preserve_order"] }
serde_json_path = "=0.7.2"
serde_yaml = "=0.9.34"
thiserror = "=2.0.21"
tokio = { version = "=1.54.1", features = ["full"] }
tokio-context = "=0.1.3"
tokio-stream = "=0.1.19"
tower = { version = "=0.5.3", features = ["util"] }
tracing = "=0.1.44"
