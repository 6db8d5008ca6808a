[package]
name = "jevx"
version = "0.1.0"
edition = "2021"
publish = false

[dependencies]
serde = { version = "1", features = ["derive"] }
serde_json = "1"
serde_yaml = "0.9"
sha2 = "0.10"
clap = { version = "4", features = ["derive"] }
tokio = { version = "1", features = ["macros", "rt-multi-thread", "time", "io-util", "net"] }
reqwest = { version = "0.12", default-features = false, features = ["json"] }
async-trait = "0.1"
fs2 = "0.4"
libc = "0.2"

[dev-dependencies]
tempfile = "3"
