[package]
name = "stats"
version = "0.1.0"
edition = "2021"
publish = false

[dependencies]
chrono = "0.4"
sea-orm = { version = "1", default-features = false, features = ["macros", "with-chrono"] }
serde = { version = "1", features = ["derive"] }
