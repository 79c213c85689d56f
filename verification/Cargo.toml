[package]
name = "cozyui"
version = "0.1.0"
edition = "2021"
publish = false

[dependencies]
alacritty_terminal = "*"
deunicode = "1"
libc = "0.2"
png = "0.17"
serde_json = "1"
unicode-segmentation = "1"
x11rb = { version = "*", features = ["allow-unsafe-code"] }
xkbcommon = { version = "*", features = ["x11"] }
