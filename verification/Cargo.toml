[package]
name = "nx_k8s_cache"
version = "0.1.0"
edition = "2021"
publish = false

[dependencies]
sha2 = "0.10"
subtle = "2"
hex = "0.4"
axum = "0.8"
tokio = { version = "1", features = ["full"] }
tower-http = { version = "0.6", features = ["timeout", "trace"] }
tracing = "0.1"
tracing-subscriber = { version = "0.3", features = ["env-filter", "json"] }
kube = "*"
k8s-openapi = { version = "*", features = ["latest"] }
object_store = { version = "*", features = ["aws"] }
prometheus = "*"
bytes = "1"
futures = "0.3"
thiserror = "*"
async-trait = "0.1"
