[package]
name = "dbbackup"
version = "0.1.0"
edition = "2021"
publish = false

[dependencies]
rand = "0.8"
chrono = "0.4"
tokio = { version = "1", features = ["full"] }
sqlx = { version = "0.8", features = ["runtime-tokio", "sqlite"] }
tempfile = "3"
aws-config = "1"
aws-sdk-s3 = "1"
aws-types = "1"
async-trait = "0.1"
