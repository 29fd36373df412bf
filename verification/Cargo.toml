[package]
name = "demonlist"
version = "0.1.0"
edition = "2021"
publish = false

[dependencies]
log = "*"
maud = "*"
sqlx = { version = "*", default-features = false, features = ["runtime-tokio", "postgres"] }
url = "*"
