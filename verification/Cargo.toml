[package]
name = "localhost"
version = "0.1.0"
edition = "2021"
publish = false

[dependencies]
http = "*"
sanitise-file-name = "*"
uuid = { version = "*", features = ["v4"] }
mime_guess = "*"
async-std = "*"
futures = "*"
config = { version = "*", default-features = false, features = ["toml"] }
serde = { version = "*", features = ["derive"] }
walkdir = "*"
mio = { version = "*", features = ["net", "os-poll"] }
