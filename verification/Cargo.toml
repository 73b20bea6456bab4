[package]
name = "thermalstats"
version = "2.0.0"
edition = "2021"
publish = false

[dependencies]
bytemuck = "1"
chrono = "=0.4.45"
clap = { version = "4", features = ["derive"] }
colored = "2"
hostname = "0.4"
libc = "0.2"
num_cpus = "1"
nvml-wrapper = "0.10"
pollster = "0.4"
ratatui = "0.29"
reqwest = { version = "0.12", default-features = false, features = ["blocking", "json", "rustls-tls"] }
serde = { version = "1", features = ["derive"] }
serde_json = "=1.0.154"
sysinfo = { version = "0.33", default-features = false, features = ["system"] }
unicode-width = "=0.2.0"
wgpu = { version = "26", default-features = false, features = ["std", "vulkan", "metal", "wgsl"] }
windows-sys = { version = "0.59", features = ["Win32_Foundation", "Win32_Security", "Win32_System_Console", "Win32_System_DataExchange", "Win32_System_Memory", "Win32_System_Power", "Win32_System_Registry", "Win32_System_Threading"] }
wmi = "=0.14.0"
zip = { version = "2", default-features = false, features = ["deflate"] }
