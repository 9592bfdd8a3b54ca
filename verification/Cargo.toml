[package]
name = "chnroutes"
version = "0.5.0"
edition = "2021"
publish = false

[dependencies]
ipnet = "2"
zstd = "0.13"
netdev = "*"
net-route = "*"
clap = { version = "4", features = ["derive"] }
colored = "*"
log = "0.4"
pretty_env_logger = "*"
reqwest = { version = "0.12", default-features = false, features = ["blocking", "rustls-tls"] }
serde = { version = "1", features = ["derive"] }
serde_json = "1"
thiserror = "*"
tokio = { version = "1", features = ["full"] }
windows-sys = { version = "*", features = ["Win32_Foundation", "Win32_NetworkManagement_IpHelper", "Win32_NetworkManagement_Ndis", "Win32_Networking_WinSock"] }
windows-service = "*"
