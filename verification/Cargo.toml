[package]
name = "tf2_imgui_rs"
version = "0.1.0"
edition = "2021"
publish = false

[dependencies]
patterns = "*"
libc = "0.2"
ctor = "*"
once_cell = "1"
parking_lot = "*"
log = "0.4"
env_logger = { version = "*", default-features = false }
anyhow = "1"
thiserror = "*"
sdl2-sys = "*"
