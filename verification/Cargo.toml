[package]
name = "twitter_delete"
version = "0.2.0"
edition = "2021"
publish = false

[dependencies]
anyhow = "*"
base64 = "*"
clap = { version = "*", features = ["derive"] }
hmac = "*"
rand = "*"
reqwest = { version = "*", default-features = false, features = ["blocking"] }
serde = { version = "*", features = ["derive"] }
serde_json = "*"
sha1 = "*"
time = { version = "*", features = ["formatting", "parsing"] }
