[package]
name = "app_uninstaller"
version = "0.1.0"
edition = "2021"
publish = false

[dependencies]
home = "*"
plist = "*"
sysinfo = "*"
trash = "*"
walkdir = "*"
