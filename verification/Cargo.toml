[package]
name = "ymnab"
version = "0.1.0"
edition = "2021"
publish = false

[dependencies]
bcrypt = "*"
dotenvy = "*"
maud = "*"
poem = { version = "*", features = ["session"] }
rusty-money = { version = "*", features = ["iso"] }
serde = { version = "*", features = ["derive"] }
sqlx = { version = "*", features = ["sqlite", "runtime-tokio", "migrate"] }
tokio = { version = "*", features = ["macros", "rt-multi-thread"] }
