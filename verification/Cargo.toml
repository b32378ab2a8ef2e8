[package]
name = "keyremap"
version = "0.1.0"
edition = "2021"
publish = false

[dependencies]
evdev = "*"
serde = { version = "*", features = ["derive"] }
serde_yaml = "*"
swayipc = "*"
uinput = { version = "*", default-features = false }
uinput-sys = "*"
