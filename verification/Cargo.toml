[package]
name = "kvstore"
version = "0.1.0"
edition = "2021"
publish = false

[dependencies]
actix-web = { version = "4", default-features = false, features = ["macros"] }
futures = "0.3"
futures-util = "0.3"
