[package]
name = "codira"
version = "0.1.0"
edition = "2021"
publish = false

[dependencies]
parking_lot = "0.12"
rand = "0.8"
rand_distr = "0.4"
log = "0.4"
windows-sys = { version = "0.52", features = ["Win32_Foundation", "Win32_System_Diagnostics_Debug", "Win32_System_Kernel"] }
