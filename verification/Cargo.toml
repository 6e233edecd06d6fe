[package]
name = "revive_me"
version = "1.0.0"
edition = "2021"
publish = false

[dependencies]
actix-files = "0.6"
actix-multipart = { version = "0.6", default-features = false }
actix-web = { version = "4", default-features = false, features = ["macros"] }
calamine = "0.23"
chrono = { version = "0.4", default-features = false, features = ["clock", "std"] }
csv = "1"
dbase = "0.5"
futures-util = "0.3"
sanitize-filename = "0.5"
serde = { version = "1", features = ["derive"] }
serde_json = "1"
uuid = { version = "1", features = ["v4"] }
xlsxwriter = "0.6"
