[package]
name = "ud"
version = "0.1.0"
edition = "2021"
publish = false

[dependencies]
semver = "1"
toml_edit = "0.22"
owo-colors = "4"
serde = { version = "1", features = ["derive"] }
serde_json = "1"
clap = { version = "4", features = ["derive"] }
tokio = { version = "1", features = ["macros", "rt-multi-thread", "fs"] }
reqwest = { version = "0.12", default-features = false, features = ["rustls-tls"] }
miette = "7"
futures = "0.3"
async-trait = "0.1"
tracing = "0.1"
tracing-subscriber = { version = "0.3", features = ["env-filter", "fmt"] }
