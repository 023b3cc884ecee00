[package]
name = "transit_rt"
version = "0.1.0"
edition = "2021"
publish = false

[dependencies]
base64 = "*"
flate2 = "*"
chrono = "*"
serde = { version = "*", features = ["derive"] }
serde_json = "*"
axum = { version = "*", features = ["ws"] }
tokio = { version = "*", features = ["full"] }
tower-http = { version = "*", features = ["cors"] }
sqlx = { version = "*", default-features = false, features = ["runtime-tokio", "postgres"] }
ureq = "*"
protobuf = "*"
rayon = "*"
gtfs-structures = { version = "*", default-features = false }
dotenv = "*"
