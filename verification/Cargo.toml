[package]
name = "dumbbell_pro_log"
version = "0.1.0"
edition = "2021"
publish = false

[dependencies]
aws-config = { version = "1", default-features = false, features = ["behavior-version-latest"] }
aws-sdk-dynamodb = { version = "1", default-features = false }
axum = "0.8"
chrono = "0.4"
lambda_http = "*"
reqwest = { version = "0.12", default-features = false, features = ["json", "rustls-tls"] }
serde_json = "1"
tokio = { version = "1", features = ["full"] }
tower-http = { version = "0.6", features = ["cors"] }
tracing = "0.1"
tracing-subscriber = { version = "0.3", features = ["env-filter"] }
