[package]
name = "playlist_catalog"
version = "0.1.0"
edition = "2021"
publish = false

[dependencies]
sha2 = "0.10"
actix-web = { version = "4", default-features = false, features = ["macros"] }
actix-files = "0.6"
env_logger = "0.11"
log = "0.4"
reqwest = { version = "0.12", default-features = false, features = ["rustls-tls"] }
serde = { version = "1", features = ["derive"] }
tokio = { version = "1", features = ["fs", "io-util"] }
urlencoding = "2"
