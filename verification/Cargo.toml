[package]
name = "pinochle"
version = "0.1.0"
edition = "2021"
publish = false

[dependencies]
rand = "=0.8.8"
itertools = "=0.12.1"
serde = { version = "=1.0.229", features = ["derive"] }
serde_json = "=1.0.154"
actix-web = { version = "4", default-features = false, features = ["macros"] }
actix-cors = "*"
actix-files = "*"
