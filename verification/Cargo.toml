[package]
name = "typed_id"
version = "0.1.0"
edition = "2021"
publish = false

[dependencies]
rand = "0.8"
serde = { version = "1", features = ["derive"] }
typename = "0.1"
png = "0.16"
nalgebra = "0.32"

[dev-dependencies]
base-62 = "0.1"
