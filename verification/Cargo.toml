[package]
name = "yserver"
version = "0.1.0"
edition = "2021"
publish = false

[dependencies]
ash = "*"
crossbeam-channel = "*"
drm = "*"
env_logger = "*"
freetype-rs = "*"
libc = "*"
log = "*"
pixman = "*"
xkbcommon = "*"
