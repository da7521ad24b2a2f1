[package]
name = "handmade"
version = "0.1.0"
edition = "2021"
publish = false

[dependencies]
winapi = { version = "0.3", default-features = false, features = ["dsound", "guiddef", "libloaderapi", "memoryapi", "minwindef", "mmreg", "profileapi", "unknwnbase", "windef", "winerror", "wingdi", "winnt", "winuser", "xinput"] }
