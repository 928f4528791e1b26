[package]
name = "my_no_sql_persistence"
version = "0.1.0"
edition = "2021"
publish = false

[dependencies]
tokio = { version = "1", features = ["full"] }
serde = { version = "1", features = ["derive"] }
serde_json = "1"
uuid = { version = "1", features = ["v4"] }
prometheus = { version = "0.14", default-features = false }
async-trait = "0.1"
anyhow = "1"
futures = "0.3"
zip = { version = "*", default-features = false, features = ["deflate"] }
