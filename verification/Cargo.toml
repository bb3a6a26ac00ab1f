[package]
name = "ccaps"
version = "0.7.0"
edition = "2021"
publish = false

[dependencies]
ctrlc = "*"
serde = { version = "*", features = ["derive"] }
serde_json = "*"
winapi = { version = "*", features = ["winuser", "libloaderapi", "handleapi", "synchapi", "errhandlingapi", "winnt", "winreg", "wincon", "winerror", "minwindef", "windef"] }
