[package]
name = "sandbox_fs"
version = "0.1.0"
edition = "2021"
publish = false

[dependencies]
anyhow = "1"
axum = "*"
csv = "1"
serde = { version = "1", features = ["derive"] }
serde_json = "1"
tokio = { version = "1", features = ["macros", "rt-multi-thread", "net", "fs"] }
tower-http = { version = "*", features = ["cors"] }
utoipa = { version = "*", features = ["axum_extras"] }
utoipa-axum = "*"
