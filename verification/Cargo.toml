[package]
name = "deltalens"
version = "0.1.0"
edition = "2021"
publish = false

[dependencies]
serde = { version = "1", features = ["derive"] }
serde_json = "1"
chrono = "0.4"
clap = { version = "4", features = ["derive"] }
colored = "2"
comfy-table = "7"
bytesize = "1"
rayon = "1"
thiserror = "1"
object_store = { version = "*", features = ["aws"] }
tokio = { version = "1", features = ["rt-multi-thread"] }
futures = "0.3"
