[package]
name = "pcap_file_index"
version = "0.1.0"
edition = "2021"
publish = false

[dependencies]
pcap-file = "*"

[dev-dependencies]
bincode = "1"
