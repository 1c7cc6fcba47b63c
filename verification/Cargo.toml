[package]
name = "ragcli"
version = "0.1.0"
edition = "2021"
publish = false

[dependencies]
anyhow = "1"
calamine = "*"
clap = { version = "4", features = ["derive"] }
md5 = "*"
pdf-extract = "*"
quick-xml = "*"
reqwest = { version = "*", default-features = false, features = ["blocking", "json"] }
rusqlite = { version = "*", features = ["bundled"] }
serde = { version = "1", features = ["derive"] }
serde_json = "1"
zip = "*"
