[package]
name = "perfectionist"
version = "0.1.0"
edition = "2021"
publish = false

[dependencies]
rustc_lexer = "0.1"
serde = { version = "1", features = ["derive"] }
