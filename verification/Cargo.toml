[package]
name = "atom_perms"
version = "0.1.0"
edition = "2021"
publish = false

[dependencies]
axum = "*"
mongodb = "*"
serde = { version = "*", features = ["derive"] }
tokio = { version = "*", features = ["macros", "rt-multi-thread", "net"] }
