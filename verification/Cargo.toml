[package]
name = "privafile"
version = "0.1.0"
edition = "2021"
publish = false

[dependencies]
argon2 = "*"
blake2 = "*"
chrono = "*"
rocket = { version = "*", features = ["json"] }
rocket_cors = "*"
rusty_paseto = "*"
serde = { version = "*", features = ["derive"] }
serde_json = "*"
toml = "*"
uuid = { version = "*", features = ["v4"] }
