[package]
name = "soniccave"
version = "0.1.0"
edition = "2021"
publish = false

[dependencies]
id3 = "=1.17.2"
metaflac = "=0.2.8"
symphonia = { version = "0.5", features = ["mp3"] }
md-5 = "0.10"
uuid = { version = "=1.29.0", features = ["v4", "serde"] }
axum = "0.7"
axum-extra = { version = "0.9", features = ["query"] }
chrono = { version = "*", features = ["serde"] }
clap = { version = "*", features = ["derive"] }
log = "*"
serde = { version = "*", features = ["derive"] }
serde_json = "*"
sqlx = { version = "0.8", features = ["postgres", "runtime-tokio", "uuid", "chrono"] }
stderrlog = "*"
tokio = { version = "*", features = ["full"] }
tokio-util = { version = "*", features = ["io"] }
tower-http = { version = "*", features = ["cors"] }
