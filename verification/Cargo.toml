[package]
name = "displays"
version = "0.1.0"
edition = "2021"
publish = false

[dependencies]
anyhow = "*"
clap = { version = "*", features = ["derive"] }
color-eyre = "*"
ddc-hi = "*"
enum_dispatch = "*"
eyre = "*"
gio = "*"
glib = "*"
thiserror = "*"
tracing = "*"
tracing-subscriber = "*"
windows = { version = "0.58", features = ["Win32_Devices_Display", "Win32_Foundation", "Win32_Graphics_Gdi"] }

[dev-dependencies]
tempfile = "*"
