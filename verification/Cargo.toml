[package]
name = "linear_cli"
version = "0.1.0"
edition = "2021"
publish = false

[dependencies]
chrono = "*"
clap = { version = "*", features = ["derive", "env"] }
color-eyre = "*"
comfy-table = "*"
directories = "*"
eyre = "*"
graphql_client = { version = "*", default-features = false }
reqwest = { version = "*", default-features = false, features = ["json"] }
rpassword = "*"
serde = { version = "*", features = ["derive"] }
serde_json = "*"
tokio = { version = "*", features = ["rt-multi-thread", "macros"] }
toml = "*"
tracing = "*"
tracing-subscriber = "*"
