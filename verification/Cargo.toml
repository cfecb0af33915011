[package]
name = "mangadex_dl"
version = "0.1.0"
edition = "2021"
publish = false

[dependencies]
sha2 = "*"
mime_guess = "*"
reqwest = { version = "*", default-features = false }
tokio = { version = "*", features = ["rt", "macros", "time"] }
clap = { version = "*", features = ["derive"] }
serde = { version = "*", features = ["derive"] }
serde_json = "*"
toml = "*"
thiserror = "*"
log = "*"
simplelog = "*"
pbr = "*"

[dev-dependencies]
hex = "*"
