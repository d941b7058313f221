[package]
name = "wallet_auth"
version = "0.1.0"
edition = "2021"
publish = false

[dependencies]
hex = "=0.4.3"
pallas-crypto = "=1.4.0"
jsonwebtoken = { version = "=11.1.0", features = ["rust_crypto"] }
uuid = { version = "=1.27.0", features = ["v4"] }
chrono = "=0.4.45"
serde = { version = "=1.0.229", features = ["derive"] }
serde_json = "=1.0.151"
actix-web = "=4.15.0"
actix-cors = "=0.7.2"
actix-ws = "=0.4.0"
tokio = { version = "=1.53.2", features = ["rt-multi-thread", "macros", "time", "sync"] }
futures-util = "=0.3.34"
reqwest = { version = "=0.13.5", default-features = false, features = ["json"] }
log = "=0.4.34"
env_logger = "=0.11.11"
dotenv = "=0.15.0"
