[package]
name = "equilibrium"
version = "0.1.0"
edition = "2021"
publish = false

[dependencies]
wmidi = "4"
anyhow = "1"
env_logger = "*"
image = { version = "*", default-features = false, features = ["png"] }
raw-window-handle = "0.6"
windows-sys = { version = "*", features = ["Win32_Foundation", "Win32_UI_WindowsAndMessaging", "Win32_System_Console"] }
midir = "*"
kira = "*"
tray-icon = "*"
