[package]
name = "dozer_core"
version = "0.1.0"
edition = "2021"
publish = false

[dependencies]
parking_lot = "=0.12.5"
bson = "=2.15.0"
serde_json = "=1.0.154"
serde = { version = "=1.0.229", features = ["derive"] }
futures = "=0.3.34"
dotenvy = "=0.15.7"
mongodb = "=2.8.2"
tonic = "=0.8.3"
tonic-web = "=0.4.0"
