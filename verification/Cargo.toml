[package]
name = "perp_orderbook"
version = "0.1.0"
edition = "2021"
publish = false

[dependencies]
fixed = "1.11"
bytemuck = { version = "1", features = ["derive"] }
anchor-lang = "0.29.0"
