[package]
name = "semindex"
version = "0.1.0"
edition = "2021"
publish = false

[dependencies]
serde_json = "1"
actix-web = "4"
dotenv = "0.15"
openai-rust = "*"
qdrant-client = "~1.9"
reqwest = { version = "0.11", default-features = false, features = ["json"] }
