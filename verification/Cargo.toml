[package]
name = "mini-cluster-worker"
version = "0.1.0"
edition = "2021"
publish = false

[dependencies]
csv = "=1.4.0"
protobuf = "=2.28.0"
tokio = { version = "=1.54.1", features = ["full"] }
sqlx = { version = "0.7", default-features = false, features = ["sqlite", "runtime-tokio", "migrate"] }
rusoto_core = { version = "=0.46.0", default-features = false, features = ["rustls"] }
rusoto_s3 = { version = "=0.46.0", default-features = false, features = ["rustls"] }
async-trait = "=0.1.92"
