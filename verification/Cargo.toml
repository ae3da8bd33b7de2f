[package]
name = "mynosql_ui"
version = "0.1.0"
edition = "2021"
publish = false

[dependencies]
dioxus = { version = "0.6", features = ["router", "web"] }
serde = { version = "1", features = ["derive"] }
serde_json = "1"
