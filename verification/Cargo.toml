[package]
name = "package_registry"
version = "0.1.0"
edition = "2021"
publish = false

[dependencies]
axum = "0.2"
chrono = "0.4"
jwks-client = "*"
lazy_static = "1"
rusoto_core = "0.47"
rusoto_s3 = "0.47"
rusoto_signature = "0.47"
serde = { version = "1", features = ["derive"] }
tera = "1"
thiserror = "1"
tokio = { version = "1", features = ["full"] }
