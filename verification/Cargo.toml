[package]
name = "reconnect"
version = "0.1.0"
edition = "2021"
publish = false

[dependencies]
dsn = "*"
rand = "0.8"
serde = { version = "1", features = ["derive"] }
anyhow = "1"
log = "0.4"
tokio = { version = "1", features = ["rt-multi-thread", "macros"] }
tokio-postgres = { version = "0.7", features = ["with-chrono-0_4"] }
bb8 = "*"
bb8-postgres = "*"
tera = { version = "1", default-features = false }
chrono = "0.4"
rust_decimal = { version = "1", features = ["db-tokio-postgres"] }
csv = "1"
uuid = { version = "1", features = ["v4"] }
postgres = "0.19"
dotenv = "0.15"
env_logger = "*"
once_cell = "1"
lazy_static = "1"
serde_yaml = "*"
