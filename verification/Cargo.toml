[package]
name = "doomarkable"
version = "0.1.0"
edition = "2021"
publish = false

[dependencies]
image = { version = "*", default-features = false, features = ["png"] }
zstd = "*"
doomgeneric = "*"
evdev = "*"
inotify = "*"
fxhash = "*"
libremarkable = "*"
log = "*"
env_logger = "*"
mimalloc = "*"
