[package]
name = "wallet"
version = "0.1.0"
edition = "2021"
publish = false

[dependencies]
rust_decimal = "=1.43.0"
sha2 = "=0.10.9"
base64 = "=0.22.1"
subtle = "=2.6.1"
rand = "=0.8.8"
time = { version = "=0.3.55", features = ["formatting", "macros", "parsing"] }
serde = { version = "=1.0.229", features = ["derive"] }
serde_json = "=1.0.154"
thiserror = "=2.0.21"
axum = "=0.8.9"
axum-extra = { version = "=0.10.3", features = ["cookie"] }
askama = "=0.14.0"
tokio = { version = "=1.54.1", features = ["macros", "rt-multi-thread", "sync", "time", "net", "signal"] }
reqwest = { version = "=0.12.28", default-features = false, features = ["rustls-tls"] }
sqlx = { version = "=0.8.6", default-features = false, features = ["runtime-tokio", "postgres", "time", "rust_decimal", "migrate"] }
tracing = "=0.1.44"
tracing-subscriber = { version = "=0.3.23", features = ["env-filter", "json"] }
utoipa = "=5.5.0"
jwt-simple = { version = "=0.12.17", default-features = false, features = ["pure-rust"] }
password-auth = "=1.0.0"
argon2 = "=0.5.3"
color-eyre = "=0.6.5"
dotenvy = "=0.15.7"
