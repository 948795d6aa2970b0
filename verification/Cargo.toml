[package]
name = "rag_core"
version = "0.1.0"
edition = "2021"
publish = false

[dependencies]
actix-cors = "=0.7.2"
actix-multipart = "=0.8.5"
actix-web = "=4.18.1"
anyhow = "=1.0.104"
chrono = "=0.4.45"
csv = "=1.4.0"
dotenv = "=0.15.0"
env_logger = "=0.11.11"
futures = "=0.3.34"
hnswlib-rs = "=0.9.0"
log = "=0.4.34"
pdf-extract = "=0.12.1"
r2d2 = "=0.8.10"
r2d2_sqlite = "=0.35.0"
reqwest = { version = "=0.13.5", features = ["json"] }
rusqlite = "=0.40.2"
serde = { version = "=1.0.229", features = ["derive"] }
serde_json = "=1.0.154"
