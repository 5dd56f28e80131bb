[package]
name = "verification"
version = "0.1.0"
edition = "2021"
publish = false

[dependencies]
actix-web = "=4.15.0"
serde = { version = "=1.0.229", features = ["derive"] }
serde_json = "=1.0.151"
sha2 = "0.10"
ureq = { version = "2", default-features = false, features = ["tls", "json"] }
