[package]
name = "deskfrog"
version = "1.0.0"
edition = "2021"
publish = false

[dependencies]
rand = "*"
font8x8 = { version = "*", default-features = false }
swash = "*"
serde = { version = "*", features = ["derive"] }
toml = "*"
x11rb = { version = "*", features = ["randr", "shape"] }
ksni = "*"
tokio = { version = "*", features = ["rt"] }
