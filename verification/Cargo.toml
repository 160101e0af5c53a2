[package]
name = "files_index"
version = "0.1.0"
edition = "2021"
publish = false

[dependencies]
tantivy = "0.22"
tokio = { version = "1", features = ["rt", "rt-multi-thread", "sync", "time", "macros"] }
actix-web = "4"
actix-cors = "0.7"
futures = "0.3"
serde = { version = "1", features = ["derive"] }
