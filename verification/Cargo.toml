[package]
name = "website"
version = "0.1.0"
edition = "2021"
publish = false

[dependencies]
chrono = "=0.4.45"
num-traits = "=0.2.19"
leptos-struct-table = { version = "0.6", default-features = false }
serde = { version = "1", features = ["derive"] }
async-trait = "0.1"
