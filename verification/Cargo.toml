[package]
name = "packet_sniffer"
version = "0.1.0"
edition = "2021"
publish = false

[dependencies]
clap = { version = "4", features = ["derive"] }
colored = "*"
lazy_static = "1"
netstat2 = "*"
pcap = "*"
tokio = { version = "1", features = ["macros", "rt-multi-thread", "sync"] }
