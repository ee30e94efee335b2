[package]
name = "worstbird"
version = "0.1.0"
edition = "2021"
publish = false

[dependencies]
chrono = "=0.4.45"
imagesize = "=0.15.0"
serde = { version = "=1.0.229", features = ["derive"] }
dashmap = "=6.2.1"
dotenv = "=0.15.0"
num-traits = "=0.2.19"
reqwest = { version = "=0.13.5", default-features = false, features = ["blocking", "gzip", "cookies"] }
tera = "=1.20.1"
tokio = { version = "=1.54.1", features = ["full"] }
rocket = { version = "=0.5.2", features = ["secrets"] }
rocket_dyn_templates = { version = "=0.2.0", features = ["tera"] }
diesel = { version = "=2.3.14", features = ["postgres"] }
rocket_sync_db_pools = { version = "=0.1.0", features = ["diesel_postgres_pool"] }
twitter-api = "=0.6.1"
oauth-client = { version = "=0.8.0", features = ["reqwest-blocking"] }
