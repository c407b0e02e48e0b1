[package]
name = "redis_lite"
version = "0.1.0"
edition = "2021"
publish = false

[dependencies]
base64 = "=0.23.1"
bytes = "=1.12.1"
futures = "=0.3.34"
memchr = "=2.8.3"
sha2 = "=0.11.0"
skiplist = "=1.2.0"
tokio = { version = "=1.53.2", features = ["full"] }
tokio-stream = { version = "=0.1.19", features = ["sync"] }
tokio-util = { version = "=0.7.19", features = ["codec"] }

[dev-dependencies]
hex = "=0.4.3"
