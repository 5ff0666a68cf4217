[package]
name = "user_role_store"
version = "0.1.0"
edition = "2021"
publish = false

[dependencies]
uuid = { version = "1", features = ["v4"] }
serde = { version = "1", features = ["derive"] }
actix-web = "4"
log = "0.4"
env_logger = "0.11"
