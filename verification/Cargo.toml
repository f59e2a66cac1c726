[package]
name = "manga_parser"
version = "0.1.0"
edition = "2021"
publish = false

[dependencies]
scraper = "*"
reqwest = { version = "*", default-features = false }
tokio = { version = "*", features = ["macros", "rt-multi-thread"] }
sqlx = { version = "*", default-features = false, features = ["runtime-tokio", "postgres"] }
dotenvy = "*"
spinners = "*"
