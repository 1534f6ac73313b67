[package]
name = "osm"
version = "0.1.0"
edition = "2021"
publish = false

[dependencies]
flate2 = "1"
prost = "0.11"
quick-xml = { version = "*", features = ["serialize"] }
serde = { version = "1", features = ["derive"] }
