[package]
name = "guardi_vpn"
version = "0.1.0"
edition = "2021"
publish = false

[dependencies]
uuid = { version = "1", features = ["v4"] }
byteorder = "1"
tokio = { version = "1", features = ["rt-multi-thread", "macros", "net", "io-util", "time", "sync"] }
serde = { version = "1", features = ["derive"] }
quick-xml = { version = "0.38", features = ["serialize"] }
strum = { version = "0.26", features = ["derive"] }
strum_macros = "0.26"
ratatui = { version = "0.29", default-features = false, features = ["crossterm"] }
crossterm = { version = "0.28", features = ["event-stream"] }
anyhow = "1"
futures = "0.3"
futures-util = "0.3"
dns-lookup = "2"
libp2p = { version = "0.56", features = ["tokio", "tcp", "noise", "yamux", "gossipsub", "ping", "identify", "kad", "autonat", "relay", "dcutr", "macros"] }
