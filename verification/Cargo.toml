[package]
name = "sensor_alert"
version = "0.1.0"
edition = "2021"
rust-version = "1.95"
publish = false

[dependencies]
chrono = "=0.4.45"
dotenv = "*"
dptree = "*"
log = "*"
reqwest = { version = "*", default-features = false }
serde = { version = "*", features = ["derive"] }
serde_json = "*"
simplelog = "*"
takecell = "=0.1.1"
teloxide = { version = "*", default-features = false, features = ["macros", "ctrlc_handler"] }
tokio = { version = "*", features = ["macros", "rt-multi-thread", "time"] }
