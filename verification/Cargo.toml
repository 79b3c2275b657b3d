[package]
name = "news_curator"
version = "0.1.0"
edition = "2021"
publish = false

[dependencies]
rss = "2"
atom_syndication = "0.12"
chrono = "0.4"
tera = { version = "1", default-features = false }
reqwest = { version = "0.11", default-features = false, features = ["blocking"] }
serde = { version = "1", features = ["derive"] }
serde_yaml = "0.9"
