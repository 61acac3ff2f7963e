[package]
name = "bitcoin_dashboard"
version = "0.1.0"
edition = "2021"
publish = false

[dependencies]
actix-web = "=4.18.1"
actix-files = "=0.6.10"
anyhow = "=1.0.104"
async-trait = "=0.1.92"
bitcoincore-rpc = "=0.19.0"
chrono = { version = "=0.4.45", features = ["serde"] }
config = { version = "=0.15.27", default-features = false, features = ["yaml"] }
dashmap = "=6.2.1"
serde = { version = "=1.0.229", features = ["derive"] }
serde_json = "=1.0.154"
sqlx = { version = "=0.8.6", default-features = false, features = ["runtime-tokio", "postgres", "uuid", "chrono", "json", "macros"] }
thiserror = "=2.0.21"
tokio = { version = "=1.54.1", features = ["full"] }
utoipa = { version = "=5.5.0", features = ["actix_extras", "chrono", "uuid"] }
utoipa-swagger-ui = { version = "=9.0.2", features = ["actix-web", "vendored"] }
uuid = { version = "=1.29.0", features = ["v4", "serde"] }
