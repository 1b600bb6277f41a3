[package]
name = "cloud-curl"
version = "0.1.0"
edition = "2021"
publish = false

[dependencies]
aws-sigv4 = "0.55"
clap = { version = "4", features = ["derive"] }
http = "0.2"
hyper = { version = "0.14", features = ["client", "http1", "http2", "tcp"] }
hyper-openssl = "0.9"
once_cell = "1"
serde = { version = "1", features = ["derive"] }
serde_yaml = "0.9"
tokio = { version = "1", features = ["macros", "rt-multi-thread"] }
