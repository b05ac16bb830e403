[package]
name = "gpui_platform"
version = "0.1.0"
edition = "2021"
publish = false

[dependencies]
anyhow = "=1.0.104"
ashpd = { version = "=0.13.13", default-features = false, features = ["async-io", "settings"] }
calloop = "=0.14.5"
etagere = "=0.2.15"
metal = "=0.33.0"
parking_lot = "=0.12.5"
smol = "=2.0.2"
wgpu = { version = "=30.0.1", default-features = false, features = ["noop", "std"] }
