[package]
name = "table_orders"
version = "0.1.0"
edition = "2021"
publish = false

[dependencies]
log = "0.4"
rocket = { version = "0.5", features = ["json"] }
rocket_db_pools = { version = "0.2", features = ["sqlx_sqlite"] }
serde_with = "3"
simplelog = "0.12"
sqlx = { version = "0.7", default-features = false }
thiserror = "1"
