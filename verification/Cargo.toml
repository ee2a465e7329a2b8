[package]
name = "solo_project"
version = "0.1.0"
edition = "2021"
publish = false

[dependencies]
actix-web = { version = "4", default-features = false, features = ["macros"] }
actix-cors = "0.7"
actix-files = "0.6"
anyhow = "1"
chrono = "0.4"
dotenv = "0.15"
futures-util = "0.3"
serde = { version = "1", features = ["derive"] }
tiberius = { version = "0.12", default-features = false, features = ["tds73", "chrono", "rustls"] }
tokio = { version = "1", features = ["macros", "rt-multi-thread", "time", "net"] }
tokio-util = { version = "0.7", features = ["compat"] }
