[package]
name = "sd8viz-cli"
version = "0.1.0"
edition = "2021"
publish = false

[dependencies]
urlencoding = "2"
anyhow = "1"
clap = { version = "4", features = ["derive", "env"] }
env_logger = "0.11"
log = "0.4"
reqwest = { version = "0.12", default-features = false, features = ["json"] }
serde = { version = "1", features = ["derive"] }
serde_json = "1"
tokio = { version = "1", features = ["macros", "rt"] }
yup-oauth2 = "*"
