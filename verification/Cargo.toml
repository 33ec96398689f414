[package]
name = "genshin_gallery_api"
version = "0.1.0"
edition = "2021"
publish = false

[dependencies]
actix-web = "*"
futures = "*"
mongodb = "*"
serde = { version = "*", features = ["derive"] }
serde_json = "*"
serde_qs = "*"
tokio = { version = "*", features = ["macros", "rt-multi-thread"] }
tokio-stream = "*"
