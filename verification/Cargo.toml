[package]
name = "unicafe_menu"
version = "0.1.0"
edition = "2021"
publish = false

[dependencies]
chrono = "*"
log = "*"
pretty_env_logger = "*"
reqwest = "*"
tokio = { version = "*", features = ["macros", "rt-multi-thread"] }
