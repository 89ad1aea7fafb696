[package]
name = "pkgr"
version = "0.0.1"
edition = "2021"
publish = false

[dependencies]
libc = "0.2"
windows-sys = { version = "*", features = ["Win32_Foundation", "Win32_System_Console"] }
