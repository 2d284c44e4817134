[package]
name = "ikrelln"
version = "0.1.0"
edition = "2021"
publish = false

[dependencies]
actix = "0.13"
actix-web = { version = "4", default-features = false, features = ["macros"] }
chrono = "0.4"
cpython = "*"
diesel = { version = "2", features = ["sqlite"] }
fern = "*"
futures = "0.3"
log = "0.4"
serde = { version = "1", features = ["derive"] }
serde_json = "1"
serde_urlencoded = "0.7"
structopt = "0.3"
toml = "*"
uuid = { version = "1", features = ["v4"] }
