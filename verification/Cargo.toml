[package]
name = "twirp"
version = "0.1.0"
edition = "2021"
publish = false

[dependencies]
url = "*"
serde = { version = "*", features = ["derive"] }
serde_json = "*"
prost = "*"
prost-build = "*"
quote = "*"
syn = "*"
prettyplease = "*"
axum = "*"
tokio = { version = "*", features = ["full"] }
http = "*"
reqwest = { version = "*", default-features = false }
bytes = "*"
thiserror = "*"
