[package]
name = "aetherscope"
version = "0.1.0"
edition = "2021"
publish = false

[dependencies]
url = "=2.5.8"
fastbloom = "=0.17.0"
robotxt = "=0.6.1"
xxhash-rust = { version = "=0.8.19", features = ["xxh3"] }
base64 = "=0.23.1"
tokio = { version = "*", features = ["full"] }
reqwest = { version = "*", default-features = false, features = ["stream"] }
async-trait = "*"
futures = "*"
futures-util = "*"
bytes = "*"
uuid = { version = "*", features = ["v4"] }
chromiumoxide = { version = "*", default-features = false, features = ["tokio-runtime"] }
fastpool = "*"
redis = { version = "*", features = ["tokio-comp", "connection-manager"] }
sqlx = { version = "*", default-features = false, features = ["sqlite", "runtime-tokio"] }
cdrs-tokio = "*"
chrono = "*"
thiserror = "*"
