[package]
name = "pixeldraw"
version = "0.1.1"
edition = "2021"
publish = false

[dependencies]
image = { version = "*", default-features = false, features = ["png"] }
base64 = "*"
rmcp = { version = "*", features = ["server", "transport-io", "macros"] }
serde = { version = "1", features = ["derive"] }
tempfile = "*"
tokio = { version = "1", features = ["macros", "rt-multi-thread", "io-std", "sync"] }
tracing-subscriber = { version = "*", features = ["env-filter", "fmt"] }
