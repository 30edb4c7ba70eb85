[package]
name = "agg_server"
version = "0.1.0"
edition = "2021"
publish = false

[dependencies]
actix-web = "3"
actix-web-httpauth = "0.5"
actix-cors = "0.5"
actix-rt = "1"
chrono = { version = "0.4", features = ["serde"] }
diesel = { version = "1.4", features = ["postgres", "chrono", "r2d2"] }
tokio-diesel = "0.3"
tokio = { version = "0.2", features = ["full"] }
futures = "0.3"
serde = { version = "1", features = ["derive"] }
env_logger = "0.8"
log = "0.4"
