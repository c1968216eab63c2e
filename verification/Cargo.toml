[package]
name = "owntracks_export"
version = "0.1.0"
edition = "2021"
publish = false

[dependencies]
chrono = "0.4"
clap = { version = "4", features = ["derive"] }
polars = { version = "0.46", features = ["json", "dtype-struct"] }
serde = { version = "1", features = ["derive"] }
serde_json = "1"
