[package]
name = "arp_scan"
version = "0.1.0"
edition = "2021"
publish = false

[dependencies]
ansi_term = "*"
csv = "*"
ipnetwork = "*"
pnet_datalink = "*"
serde = "*"
serde_json = { version = "*", features = ["preserve_order"] }
serde_yaml = "*"
