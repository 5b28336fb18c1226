[package]
name = "tradebook"
version = "0.1.0"
edition = "2021"
publish = false

[dependencies]
chrono = "*"
redis = { version = "*", features = ["r2d2"] }
r2d2 = "*"
serde = { version = "*", features = ["derive"] }
thiserror = "*"
lazy_static = "*"
tokio = { version = "*", features = ["rt"] }
cached = "*"
aws-config = "*"
aws-sdk-dynamodb = "*"
aws-types = "*"
