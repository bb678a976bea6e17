[package]
name = "school_graphql"
version = "0.1.0"
edition = "2021"
publish = false

[dependencies]
chrono = { version = "=0.4.45", default-features = false, features = ["std"] }
async-graphql = { version = "=7.2.1", features = ["apollo_persisted_queries"] }
async-graphql-axum = "=7.2.1"
axum = "=0.8.9"
dotenv = "=0.15.0"
prometheus = { version = "=0.14.0", default-features = false }
redis = { version = "=1.8.0", default-features = false, features = ["tokio-comp", "connection-manager"] }
sea-orm = { version = "=2.0.4", default-features = false, features = ["macros", "sqlx-mysql", "runtime-tokio", "with-chrono", "with-json"] }
serde_json = "=1.0.154"
smallvec = "=1.16.4"
thiserror = "=2.0.21"
tokio = { version = "=1.54.1", features = ["full"] }
tower = { version = "=0.5.3", features = ["util"] }
tower-http = { version = "=0.7.1", features = ["cors", "normalize-path", "catch-panic", "compression-gzip", "decompression-gzip", "util"] }
tracing = "=0.1.44"
tracing-subscriber = { version = "=0.3.23", features = ["env-filter"] }
