[package]
name = "finder"
version = "0.1.0"
edition = "2021"
publish = false

[dependencies]
serde_json = "=1.0.154"
image = { version = "=0.25.10", default-features = false, features = ["png", "jpeg"] }
zip = { version = "=9.2.2", default-features = false, features = ["deflate"] }
notify = "=8.2.1"
once_cell = "=1.21.4"
libc = "=0.2.191"
gtk4 = "=0.11.5"
gdk4 = "=0.11.5"
glib = "=0.22.10"
