[package]
name = "kube_eye_export_server"
version = "0.1.0"
edition = "2021"
publish = false

[dependencies]
arc-swap = "=1.9.2"
percent-encoding = "=2.3.2"
typst = "=0.15.1"
typst-as-lib = "=0.17.0"
typst-pdf = "=0.15.1"
serde = { version = "=1.0.229", features = ["derive"] }
serde_json = "=1.0.151"
axum = "=0.8.9"
tokio = { version = "=1.53.2", features = ["rt-multi-thread", "macros", "sync", "net"] }
notify = "=8.2.0"
tower-http = { version = "=0.7.1", features = ["fs"] }
