[package]
name = "ppk2"
version = "0.1.0"
edition = "2021"
publish = false

[dependencies]
serialport = { version = "4", default-features = false }
thiserror = "1"
tracing = "0.1"
windows-sys = { version = "0.52", features = ["Win32_Devices_Communication", "Win32_Foundation"] }
