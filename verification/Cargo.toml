[package]
name = "workspace_query"
version = "0.1.0"
edition = "2021"
publish = false

[dependencies]
git2 = "*"
handlebars = "*"
rand = "0.8"
rust-embed = "*"
serde = { version = "1", features = ["derive"] }
serde_derive = "1"
tokio = { version = "1", features = ["full"] }
walkdir = "2"
warp = "0.3"
