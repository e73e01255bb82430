[package]
name = "rustdesk"
version = "0.1.0"
edition = "2021"
publish = false

[dependencies]
totp-rs = { version = "5", features = ["otpauth"] }
regex = "1"
wallpaper = "*"
rdev = "*"
serde = { version = "1", features = ["derive"] }
serde_derive = "1"
serde_json = "1"
log = "0.4"
lazy_static = "1"
cfg-if = "1"
bytes = "1"
clipboard-master = "*"
keepawake = "*"
dbus = "*"
pulsectl-rs = "*"
libxdo-sys = "*"
