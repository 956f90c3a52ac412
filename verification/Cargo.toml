[package]
name = "memscan"
version = "0.1.0"
edition = "2021"
publish = false

[dependencies]
mint = "0.5"
rand = "0.8"
windows = { version = "0.52", features = ["Win32_Foundation", "Win32_System_Diagnostics_Debug", "Win32_System_Diagnostics_ToolHelp", "Win32_System_Threading", "Win32_System_Memory", "Win32_UI_Input_KeyboardAndMouse"] }
