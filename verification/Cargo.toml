[package]
name = "rmap"
version = "0.1.0"
edition = "2021"
publish = false

[dependencies]
anyhow = "1"
crossbeam = "0.8"
futures = { version = "0.3", features = ["thread-pool"] }
futures-timer = "3"
parking_lot = "0.12"
rhai = "1"
rustc-hash = "2"
sdl2 = "0.37"
winapi = { version = "0.3", features = ["winuser"] }
