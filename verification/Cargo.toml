[package]
name = "rusty"
version = "0.1.0"
edition = "2021"
publish = false

[dependencies]
actix-cors = "*"
actix-web = "*"
chrono = "*"
clap = { version = "*", features = ["derive"] }
colored = "*"
futures = "*"
libc = "*"
ollama-rs = "*"
prettytable-rs = "*"
serde = { version = "*", features = ["derive"] }
serde_json = "*"
tokio = { version = "*", features = ["macros", "rt-multi-thread", "time", "signal"] }
