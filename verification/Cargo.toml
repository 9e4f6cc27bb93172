[package]
name = "staticserve"
version = "0.1.0"
edition = "2021"
publish = false

[dependencies]
actix-web = { version = "4", default-features = false, features = ["macros"] }
actix-files = "0.6"
actix-governor = "*"
actix-ip-filter = "*"
serde = { version = "1", features = ["derive"] }
serde_json = "1"
