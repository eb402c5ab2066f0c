[package]
name = "book_ssg"
version = "0.1.0"
edition = "2021"
publish = false

[dependencies]
axum = "0.8"
http = "1"
leptos = { version = "0.8", features = ["ssr"] }
leptos_axum = "0.8"
leptos_router = { version = "0.8", features = ["ssr"] }
serde = { version = "1", features = ["derive"] }
thiserror = "2"
tokio = { version = "1", features = ["rt-multi-thread", "macros", "net"] }
