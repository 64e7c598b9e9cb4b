[package]
name = "schema_editor"
version = "0.1.0"
edition = "2021"
publish = false

[dependencies]
uuid = { version = "=1.29.1", features = ["v4"] }
strum = { version = "=0.26.3", features = ["derive"] }
strum_macros = "=0.26.4"
