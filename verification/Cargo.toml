[package]
name = "couscous"
version = "0.1.0"
edition = "2021"
publish = false

[dependencies]
anyhow = "*"
argh = "*"
bytes = "*"
chrono = "*"
fern = "*"
log = "*"
parse_duration = "*"
quinn = "*"
rcgen = "*"
rustls = "*"
rustls-pemfile = "*"
serde = { version = "*", features = ["derive"] }
tokio = { version = "*", features = ["rt-multi-thread", "net", "io-util", "time", "macros", "sync"] }
toml = "*"
