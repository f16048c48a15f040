[package]
name = "model_store"
version = "0.1.0"
edition = "2021"
publish = false

[dependencies]
darling = "=0.20.3"
modql = "=0.2.0"
serde_json = "=1.0.154"
surrealdb = { version = "=1.0.2", default-features = false, features = ["kv-mem"] }

[dev-dependencies]
tokio = { version = "=1.54.1", features = ["rt"] }
