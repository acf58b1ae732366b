[package]
name = "authsec"
version = "0.1.0"
edition = "2021"
publish = false

[dependencies]
jsonwebtoken = { version = "9", default-features = false }
pqcrypto-mlkem = "0.1"
pqcrypto-traits = "0.3"
aes-gcm = "0.10"
axum = "0.7"
tokio = { version = "1", features = ["full"] }
reqwest = { version = "0.12", default-features = false, features = ["json"] }
serde = { version = "1", features = ["derive"] }
serde_json = "1"
dotenvy = "0.15"

[dev-dependencies]
base64 = "0.22"
