[package]
name = "hyperevolution"
version = "0.3.0"
edition = "2021"
publish = false

[dependencies]
hyperreal = "=0.13.0"

[dev-dependencies]
hyperreal = { version = "=0.13.0", features = ["dispatch-trace"] }
