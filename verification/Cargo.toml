[package]
name = "sotto"
version = "0.1.0"
edition = "2021"
publish = false

[dependencies]
getrandom = "0.3"
reqwest = { version = "0.12", default-features = false, features = ["blocking", "json", "rustls-tls"] }
serde = { version = "1", features = ["derive"] }
serde_json = "1"
sqlx = { version = "0.8", default-features = false, features = ["postgres", "runtime-tokio"] }
subtle = "2"
thiserror = "2"
