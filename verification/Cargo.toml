[package]
name = "mempool"
version = "0.1.0"
edition = "2021"
publish = false

[dependencies]
async-trait = "0.1"
bincode = "1.3"
bytes = "1"
exit-future = "0.2"
futures = "0.3"
log = "0.4"
serde = { version = "1", features = ["derive"] }
sha2 = "0.10"
slog = "2"
tokio = { version = "1", features = ["macros", "rt", "sync", "time"] }
