[package]
name = "hand-tracking-mouse"
version = "0.1.0"
edition = "2021"
publish = false

[dependencies]
anyhow = "=1.0.104"
dirs = "=6.0.0"
minifb = "=0.28.0"
nokhwa = { version = "=0.10.11", features = ["input-native"] }
ort = "=2.0.0-rc.15"
serde = { version = "=1.0.229", features = ["derive"] }
toml = "=0.8.23"
windows-sys = { version = "=0.59.0", features = ["Win32_UI_Input_KeyboardAndMouse", "Win32_UI_WindowsAndMessaging"] }
