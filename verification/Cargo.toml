[package]
name = "auth_middleware"
version = "0.1.0"
edition = "2021"
publish = false

[dependencies]
oauth2 = { version = "*", default-features = false }
serde_json = "*"

[dev-dependencies]
cookie = "*"
url = "*"
