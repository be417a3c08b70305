[package]
name = "snmp_harvest"
version = "0.1.0"
edition = "2021"
publish = false

[dependencies]
anyhow = "*"
clap = { version = "4", features = ["derive"] }
config-file = { version = "*", features = ["yaml"] }
crossbeam-channel = "*"
env_logger = "*"
log = "*"
msnmp = "*"
rand = "0.8"
scan_dir = "*"
serde = { version = "*", features = ["derive"] }
size_format = "*"
snmp_mp = "*"
snmp_usm = "*"
