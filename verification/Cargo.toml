[package]
name = "telegramka_api"
version = "0.1.0"
edition = "2021"
publish = false

[dependencies]
argon2 = "0.5"
chrono = "0.4"
image = { version = "0.25", default-features = false, features = ["bmp", "gif", "ico", "jpeg", "png", "pnm", "qoi", "tga", "webp"] }
jsonwebtoken = { version = "10", default-features = false, features = ["rust_crypto"] }
serde_json = { version = "1", features = ["raw_value"] }
uuid = { version = "1", features = ["v4"] }
anyhow = "1"
axum = { version = "0.8", features = ["ws", "multipart"] }
dotenvy = "0.15"
futures-util = { version = "0.3", features = ["sink"] }
lettre = { version = "0.11", default-features = false, features = ["builder", "smtp-transport", "tokio1", "tokio1-native-tls"] }
sea-orm = { version = "2", default-features = false, features = ["macros", "sqlx-postgres", "runtime-tokio-native-tls", "with-chrono", "with-uuid", "with-json"] }
serde = { version = "1", features = ["derive"] }
tera = { version = "1", default-features = false }
tokio = { version = "1", features = ["rt-multi-thread", "macros", "net", "sync", "time"] }
tower-http = { version = "0.6", features = ["fs"] }
tracing = "0.1"
tracing-subscriber = { version = "0.3", default-features = false, features = ["fmt", "std"] }
