[package]
name = "fastfs"
version = "0.6.2"
edition = "2021"
publish = false

[dependencies]
aho-corasick = "=1.1.5"
memchr = "=2.8.3"
num_cpus = "=1.17.0"
regex-automata = "=0.4.18"
regex-syntax = "=0.8.11"
windows-sys = { version = "=0.61.2", features = ["Win32_Foundation", "Win32_Security", "Win32_Storage_FileSystem", "Win32_System_IO", "Win32_System_Ioctl", "Win32_System_Threading"] }
