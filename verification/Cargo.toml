[package]
name = "retrovault"
version = "0.1.0"
edition = "2021"
publish = false

[dependencies]
actix-cors = "*"
actix-files = "*"
actix-multipart = "*"
actix-web = "=4.15.0"
bcrypt = "=0.19.3"
chrono = { version = "=0.4.45", features = ["serde"] }
dotenv = "=0.15.0"
env_logger = "*"
futures-util = "*"
jsonwebtoken = { version = "=11.1.0", features = ["rust_crypto"] }
log = "*"
serde = { version = "*", features = ["derive"] }
serde_json = "=1.0.151"
sqlx = { version = "=0.9.0", default-features = false, features = ["runtime-tokio", "postgres", "uuid", "chrono"] }
uuid = { version = "=1.27.0", features = ["serde", "v4"] }
validator = { version = "=0.21.0", features = ["derive"] }
