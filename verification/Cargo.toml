[package]
name = "campground"
version = "0.1.0"
edition = "2021"
publish = false

[dependencies]
bevy = { version = "0.15", default-features = false, features = ["bevy_state", "multi_threaded"] }
itertools = "0.13"
petgraph = "0.6"
parking_lot = "0.12"
anyhow = "1"
thiserror = "1"
argh = "0.1"
confy = "0.6"
serde = { version = "1", features = ["derive"] }
serde_derive = "1"
directories = "5"
brotli = "7"
tempfile = "3"
