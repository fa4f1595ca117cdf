[package]
name = "hexhavoc"
version = "0.1.0"
edition = "2021"
publish = false

[dependencies]
rand = "0.9"
uuid = { version = "1", features = ["v4", "serde"] }
noise = { version = "0.9", default-features = false, features = ["std"] }
serde = { version = "1", features = ["derive"] }
serde_json = "1"
actix-web = "4"
actix-files = "0.6"
actix-ws = "0.3"
futures-util = "0.3"
tokio = { version = "1", features = ["sync"] }
