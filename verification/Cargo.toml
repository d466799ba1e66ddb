[package]
name = "tricore_kernel"
version = "0.1.0"
edition = "2021"
publish = false

[dependencies]
heapless = "=0.8.0"
critical-section = "=1.2.0"
embedded-alloc = "=0.5.1"
format_no_std = "=1.2.0"
paste = "=1.0.15"

[dev-dependencies]
critical-section = { version = "=1.2.0", features = ["std"] }
