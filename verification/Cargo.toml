[package]
name = "winalpha"
version = "0.1.0"
edition = "2021"
publish = false

[dependencies]
anyhow = "1"
crossbeam-channel = "0.5"
directories = "*"
serde = { version = "1", features = ["derive"] }
serde_json = "1"
slint = { version = "1", default-features = false, features = ["std", "compat-1-2"] }
tokio = { version = "1", features = ["rt-multi-thread", "macros", "sync", "time"] }
tray-item = "*"
windows = { version = "*", features = ["Win32_Foundation", "Win32_Security", "Win32_System_ProcessStatus", "Win32_System_Registry", "Win32_System_Threading", "Win32_UI_Input_KeyboardAndMouse", "Win32_UI_Shell", "Win32_UI_WindowsAndMessaging"] }
